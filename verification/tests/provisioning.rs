use cargo_compete::codec::{read_package_metadata_doc, read_problem, write_problem};
use cargo_compete::dispatch::{
    check_contest_requirement, package_name_for, pair_file_paths, problem_pairs, src_paths, urls,
    RetrieveOutcome, RetrieveOutcomeContest, RetrieveOutcomeProblem,
};
use cargo_compete::derive_name::bin_name_of;
use cargo_compete::doc::{Doc, DocEntry, DocValue};
use cargo_compete::error::CompeteError;
use cargo_compete::model::{Platform, TargetProblem, TargetProblemYukicoder};
use cargo_compete::provision::{add_member, parse_u64, register_member, set_build_target_dir};

fn path(segs: &[&str]) -> Vec<String> {
    segs.iter().map(|s| s.to_string()).collect()
}

fn values_equal(a: &DocValue, b: &DocValue) -> bool {
    match (a, b) {
        (DocValue::Str(x), DocValue::Str(y)) => x == y,
        (DocValue::UInt(x), DocValue::UInt(y)) => x == y,
        (DocValue::Bool(x), DocValue::Bool(y)) => x == y,
        (DocValue::StrList(x), DocValue::StrList(y)) => x == y,
        _ => false,
    }
}

fn docs_equal(a: &Doc, b: &Doc) -> bool {
    a.entries.len() == b.entries.len()
        && a.entries.iter().zip(b.entries.iter()).all(|(x, y)| {
            x.path == y.path && values_equal(&x.value, &y.value)
        })
}

fn problems_equal(a: &TargetProblem, b: &TargetProblem) -> bool {
    match (a, b) {
        (
            TargetProblem::Atcoder { contest: c1, index: i1, url: u1 },
            TargetProblem::Atcoder { contest: c2, index: i2, url: u2 },
        ) => c1 == c2 && i1 == i2 && u1 == u2,
        (
            TargetProblem::Codeforces { contest: c1, index: i1, url: u1 },
            TargetProblem::Codeforces { contest: c2, index: i2, url: u2 },
        ) => c1 == c2 && i1 == i2 && u1 == u2,
        (
            TargetProblem::Yukicoder(TargetProblemYukicoder::Problem { no: n1, url: u1 }),
            TargetProblem::Yukicoder(TargetProblemYukicoder::Problem { no: n2, url: u2 }),
        ) => n1 == n2 && u1 == u2,
        (
            TargetProblem::Yukicoder(TargetProblemYukicoder::Contest {
                contest: c1,
                index: i1,
                url: u1,
            }),
            TargetProblem::Yukicoder(TargetProblemYukicoder::Contest {
                contest: c2,
                index: i2,
                url: u2,
            }),
        ) => c1 == c2 && i1 == i2 && u1 == u2,
        _ => false,
    }
}

#[test]
fn derive_name_is_deterministic_and_kebab_cases() {
    assert_eq!(bin_name_of("A"), "a");
    assert_eq!(bin_name_of("Problem A"), "problem-a");
    assert_eq!(bin_name_of("A"), bin_name_of("A"));
    assert_eq!(bin_name_of("1001"), "1001");
}

#[test]
fn src_paths_follow_problem_order() {
    let outcome = RetrieveOutcome {
        contest: None,
        problems: vec![
            RetrieveOutcomeProblem { index: "B".to_string(), url: "u1".to_string() },
            RetrieveOutcomeProblem { index: "A".to_string(), url: "u2".to_string() },
        ],
    };
    let paths = src_paths("/ws/abc", &outcome);
    assert_eq!(paths, vec!["/ws/abc/src/bin/b.rs", "/ws/abc/src/bin/a.rs"]);
    let us = urls(&outcome);
    assert_eq!(us, vec!["u1", "u2"]);
    let pairs = problem_pairs(&outcome);
    assert_eq!(pairs[0].0, "B");
    assert_eq!(pairs[1].1, "u2");
}

#[test]
fn pairing_rejects_length_mismatch() {
    let expected = vec!["a.rs".to_string(), "b.rs".to_string()];
    let saved = vec!["x.yml".to_string()];
    let r = pair_file_paths(expected, saved);
    assert!(matches!(
        r,
        Err(CompeteError::InternalInvariantViolation { expected: 2, actual: 1 })
    ));
}

#[test]
fn pairing_is_positional() {
    let expected = vec!["a.rs".to_string(), "b.rs".to_string()];
    let saved = vec!["a.yml".to_string(), "b.yml".to_string()];
    let pairs = pair_file_paths(expected, saved).unwrap();
    assert_eq!(pairs.len(), 2);
    assert_eq!(pairs[0], ("a.rs".to_string(), "a.yml".to_string()));
    assert_eq!(pairs[1], ("b.rs".to_string(), "b.yml".to_string()));
}

#[test]
fn contest_requirement_per_platform() {
    assert!(check_contest_requirement(Platform::Atcoder, &None).is_err());
    assert!(matches!(
        check_contest_requirement(Platform::Codeforces, &None),
        Err(CompeteError::MissingContest { .. })
    ));
    assert!(check_contest_requirement(Platform::Atcoder, &Some("abc".to_string())).is_ok());
    assert!(check_contest_requirement(Platform::Yukicoder, &None).is_ok());
}

#[test]
fn atcoder_contest_provisioning_scenario() {
    let contest = Some("abc123".to_string());
    let outcome = RetrieveOutcome {
        contest: None,
        problems: vec![
            RetrieveOutcomeProblem {
                index: "A".to_string(),
                url: "https://atcoder.jp/contests/abc123/tasks/abc123_a".to_string(),
            },
            RetrieveOutcomeProblem {
                index: "B".to_string(),
                url: "https://atcoder.jp/contests/abc123/tasks/abc123_b".to_string(),
            },
        ],
    };
    let (package_name, is_no) = package_name_for(Platform::Atcoder, &contest, &outcome);
    assert_eq!(package_name, "abc123");
    assert!(!is_no);

    let mut root = Doc::new();
    let mut pkg = Doc::new();
    let problems = problem_pairs(&outcome);
    add_member(
        &mut root,
        &mut pkg,
        &package_name,
        "../testcases/{}.yml",
        &problems,
        false,
        Platform::Atcoder,
    )
    .unwrap();

    let members = root.get_value(&path(&["workspace", "members"]));
    match members {
        Some(DocValue::StrList(l)) => assert_eq!(l, &vec!["abc123".to_string()]),
        _ => panic!("member list missing"),
    }

    let md = read_package_metadata_doc(&pkg).expect("block must read back");
    assert_eq!(md.config, "../testcases/{}.yml");
    assert_eq!(md.bin.len(), 2);
    assert_eq!(md.bin[0].0, "A");
    assert_eq!(md.bin[0].1.name, "a");
    assert!(problems_equal(
        &md.bin[0].1.problem,
        &TargetProblem::Atcoder {
            contest: "abc123".to_string(),
            index: "A".to_string(),
            url: Some("https://atcoder.jp/contests/abc123/tasks/abc123_a".to_string()),
        }
    ));
    assert_eq!(md.bin[1].0, "B");
    assert_eq!(md.bin[1].1.name, "b");
    assert!(problems_equal(
        &md.bin[1].1.problem,
        &TargetProblem::Atcoder {
            contest: "abc123".to_string(),
            index: "B".to_string(),
            url: Some("https://atcoder.jp/contests/abc123/tasks/abc123_b".to_string()),
        }
    ));
}

#[test]
fn yukicoder_no_contest_scenario() {
    let contest: Option<String> = None;
    let outcome = RetrieveOutcome {
        contest: None,
        problems: vec![RetrieveOutcomeProblem {
            index: "9000".to_string(),
            url: "https://yukicoder.me/problems/no/9000".to_string(),
        }],
    };
    let (package_name, is_no) = package_name_for(Platform::Yukicoder, &contest, &outcome);
    assert!(is_no);
    assert_eq!(package_name, "problems");

    let mut root = Doc::new();
    let mut pkg = Doc::new();
    let problems = problem_pairs(&outcome);
    add_member(
        &mut root,
        &mut pkg,
        &package_name,
        "../testcases/{}.yml",
        &problems,
        true,
        Platform::Yukicoder,
    )
    .unwrap();

    let md = read_package_metadata_doc(&pkg).unwrap();
    assert_eq!(md.bin.len(), 1);
    assert_eq!(md.bin[0].0, "9000");
    assert!(problems_equal(
        &md.bin[0].1.problem,
        &TargetProblem::Yukicoder(TargetProblemYukicoder::Problem {
            no: 9000,
            url: Some("https://yukicoder.me/problems/no/9000".to_string()),
        })
    ));
}

#[test]
fn yukicoder_outcome_contest_wins() {
    let contest: Option<String> = None;
    let outcome = RetrieveOutcome {
        contest: Some(RetrieveOutcomeContest { id: "yc300".to_string() }),
        problems: vec![],
    };
    let (package_name, is_no) = package_name_for(Platform::Yukicoder, &contest, &outcome);
    assert_eq!(package_name, "yc300");
    assert!(!is_no);
}

#[test]
fn anonymous_fetch_rejects_non_numeric_index() {
    let mut root = Doc::new();
    let mut pkg = Doc::new();
    let problems = vec![("A".to_string(), "u".to_string())];
    let r = add_member(
        &mut root,
        &mut pkg,
        "problems",
        "cfg",
        &problems,
        true,
        Platform::Yukicoder,
    );
    assert!(matches!(r, Err(CompeteError::InvalidProblemNo { .. })));
    assert!(root.entries.is_empty());
    assert!(pkg.entries.is_empty());
}

#[test]
fn provisioning_twice_equals_once() {
    let problems = vec![
        ("A".to_string(), "u1".to_string()),
        ("B".to_string(), "u2".to_string()),
    ];
    let mut root1 = Doc::new();
    let mut pkg1 = Doc::new();
    add_member(&mut root1, &mut pkg1, "abc1", "cfg", &problems, false, Platform::Atcoder).unwrap();
    let mut root2 = Doc::new();
    let mut pkg2 = Doc::new();
    add_member(&mut root2, &mut pkg2, "abc1", "cfg", &problems, false, Platform::Atcoder).unwrap();
    add_member(&mut root2, &mut pkg2, "abc1", "cfg", &problems, false, Platform::Atcoder).unwrap();
    assert!(docs_equal(&root1, &root2));
    assert!(docs_equal(&pkg1, &pkg2));
}

#[test]
fn provisioning_preserves_unrelated_manifest_content() {
    let mut pkg = Doc::new();
    pkg.upsert(path(&["package", "name"]), DocValue::Str("abc1".to_string()));
    pkg.upsert(
        path(&["dependencies", "proconio"]),
        DocValue::Str("0.4.3".to_string()),
    );
    pkg.upsert(path(&["profile", "release", "lto"]), DocValue::Bool(true));
    let before: Vec<DocEntry> = pkg.entries.clone();

    let mut root = Doc::new();
    root.upsert(
        path(&["workspace", "members"]),
        DocValue::StrList(vec!["other".to_string()]),
    );
    let problems = vec![("A".to_string(), "u1".to_string())];
    add_member(&mut root, &mut pkg, "abc1", "cfg", &problems, false, Platform::Atcoder).unwrap();

    for old in &before {
        let now = pkg.get_value(&old.path).expect("unrelated entry kept");
        assert!(values_equal(now, &old.value));
    }
    // the unrelated entries also keep their relative order at the front
    for (i, old) in before.iter().enumerate() {
        assert_eq!(pkg.entries[i].path, old.path);
    }
    match root.get_value(&path(&["workspace", "members"])) {
        Some(DocValue::StrList(l)) => {
            assert_eq!(l, &vec!["other".to_string(), "abc1".to_string()])
        }
        _ => panic!("member list missing"),
    }
}

#[test]
fn registering_member_twice_adds_once() {
    let mut root = Doc::new();
    assert!(register_member(&mut root, "abc1"));
    assert!(!register_member(&mut root, "abc1"));
    match root.get_value(&path(&["workspace", "members"])) {
        Some(DocValue::StrList(l)) => assert_eq!(l, &vec!["abc1".to_string()]),
        _ => panic!("member list missing"),
    }
}

#[test]
fn problem_round_trip_all_variants() {
    let variants = vec![
        TargetProblem::Atcoder {
            contest: "abc123".to_string(),
            index: "A".to_string(),
            url: Some("https://atcoder.jp/x".to_string()),
        },
        TargetProblem::Codeforces {
            contest: "1349".to_string(),
            index: "C".to_string(),
            url: None,
        },
        TargetProblem::Yukicoder(TargetProblemYukicoder::Problem {
            no: 9001,
            url: Some("https://yukicoder.me/problems/no/9001".to_string()),
        }),
        TargetProblem::Yukicoder(TargetProblemYukicoder::Contest {
            contest: "300".to_string(),
            index: "B".to_string(),
            url: None,
        }),
    ];
    for p in &variants {
        let mut doc = Doc::new();
        let base = path(&["problem"]);
        write_problem(&mut doc, &base, p);
        let q = read_problem(&doc, &base).expect("must read back");
        assert!(problems_equal(&q, p));
    }
}

#[test]
fn url_accessor_returns_active_variant_url() {
    let with = TargetProblem::Atcoder {
        contest: "c".to_string(),
        index: "A".to_string(),
        url: Some("https://example.com/a".to_string()),
    };
    assert_eq!(with.url().map(|u| u.as_str()), Some("https://example.com/a"));
    let without = TargetProblem::Yukicoder(TargetProblemYukicoder::Contest {
        contest: "300".to_string(),
        index: "B".to_string(),
        url: None,
    });
    assert!(without.url().is_none());
}

#[test]
fn parse_u64_accepts_digit_strings_only() {
    assert_eq!(parse_u64("0"), Some(0));
    assert_eq!(parse_u64("9000"), Some(9000));
    assert_eq!(parse_u64("9999999999999999999"), Some(9_999_999_999_999_999_999));
    assert_eq!(parse_u64(""), None);
    assert_eq!(parse_u64("12a"), None);
    assert_eq!(parse_u64("-3"), None);
    assert_eq!(parse_u64("12345678901234567890"), None);
}

#[test]
fn build_target_dir_is_set_once() {
    let mut cfg = Doc::new();
    assert!(set_build_target_dir(&mut cfg));
    assert!(!set_build_target_dir(&mut cfg));
    match cfg.get_value(&path(&["build", "target-dir"])) {
        Some(DocValue::Str(s)) => assert_eq!(s, "target"),
        _ => panic!("target-dir missing"),
    }
    let mut preset = Doc::new();
    preset.upsert(
        path(&["build", "target-dir"]),
        DocValue::Str("elsewhere".to_string()),
    );
    assert!(!set_build_target_dir(&mut preset));
    match preset.get_value(&path(&["build", "target-dir"])) {
        Some(DocValue::Str(s)) => assert_eq!(s, "elsewhere"),
        _ => panic!("target-dir missing"),
    }
}
