use cargo_compete::codec::read_package_metadata_doc;
use cargo_compete::doc::{Doc, DocValue};
use cargo_compete::error::CompeteError;
use cargo_compete::model::{
    PackageMetadataCargoCompete, PackageMetadataCargoCompeteBin, TargetProblem,
};
use cargo_compete::workspace::{locate_project, parent_of, Metadata, Package, Target};

fn path(segs: &[&str]) -> Vec<String> {
    segs.iter().map(|s| s.to_string()).collect()
}

fn bin_target(name: &str, src: &str) -> Target {
    Target {
        name: name.to_string(),
        kind: vec!["bin".to_string()],
        src_path: src.to_string(),
    }
}

fn package(id: &str, name: &str, targets: Vec<Target>) -> Package {
    Package {
        id: id.to_string(),
        name: name.to_string(),
        manifest_path: format!("/ws/{}/Cargo.toml", name),
        targets,
    }
}

fn three_member_workspace() -> Metadata {
    Metadata {
        workspace_root: "/ws".to_string(),
        workspace_members: vec!["id-a".to_string(), "id-b".to_string(), "id-c".to_string()],
        packages: vec![
            package("id-a", "a", vec![]),
            package("id-b", "b", vec![]),
            package("id-c", "c", vec![]),
        ],
        resolve_root: None,
    }
}

#[test]
fn ambiguous_workspace_without_spec() {
    let meta = three_member_workspace();
    let r = meta.query_for_member(None);
    assert!(matches!(r, Err(CompeteError::AmbiguousRoot { count: 3 })));
}

#[test]
fn current_root_wins_without_spec() {
    let mut meta = three_member_workspace();
    meta.resolve_root = Some("id-b".to_string());
    let p = meta.query_for_member(None).unwrap();
    assert_eq!(p.name, "b");
}

#[test]
fn single_member_wins_without_spec() {
    let meta = Metadata {
        workspace_root: "/ws".to_string(),
        workspace_members: vec!["id-a".to_string()],
        packages: vec![package("id-a", "a", vec![])],
        resolve_root: None,
    };
    let p = meta.query_for_member(None).unwrap();
    assert_eq!(p.name, "a");
}

#[test]
fn spec_lookup_picks_unique_match() {
    let meta = three_member_workspace();
    let spec = "b".to_string();
    let flags = vec![false, true, false];
    let p = meta.query_for_member(Some((&spec, &flags))).unwrap();
    assert_eq!(p.name, "b");

    let none_flags = vec![false, false, false];
    let r = meta.query_for_member(Some((&spec, &none_flags)));
    assert!(matches!(r, Err(CompeteError::MemberNotFound { .. })));

    let many_flags = vec![true, true, false];
    let r = meta.query_for_member(Some((&spec, &many_flags)));
    assert!(matches!(r, Err(CompeteError::AmbiguousSpec { .. })));
}

#[test]
fn all_members_filters_by_member_ids() {
    let meta = Metadata {
        workspace_root: "/ws".to_string(),
        workspace_members: vec!["id-a".to_string()],
        packages: vec![
            package("id-a", "a", vec![]),
            package("id-dep", "dep", vec![]),
        ],
        resolve_root: None,
    };
    let members = meta.all_members();
    assert_eq!(members.len(), 1);
    assert_eq!(members[0].name, "a");
}

#[test]
fn manifest_dir_strips_file_name() {
    let p = package("id-a", "abc123", vec![]);
    assert_eq!(p.manifest_dir(), "/ws/abc123");
    assert_eq!(p.manifest_dir_utf8(), "/ws/abc123");
}

#[test]
fn bin_target_lookups() {
    let p = package(
        "id-a",
        "abc123",
        vec![
            Target {
                name: "lib-helper".to_string(),
                kind: vec!["lib".to_string()],
                src_path: "/ws/abc123/src/lib.rs".to_string(),
            },
            bin_target("a", "/ws/abc123/src/bin/a.rs"),
            bin_target("b", "/ws/abc123/src/bin/b.rs"),
        ],
    );
    assert_eq!(p.bin_target_by_name("b").unwrap().src_path, "/ws/abc123/src/bin/b.rs");
    assert!(matches!(
        p.bin_target_by_name("z"),
        Err(CompeteError::BinTargetNotFound { .. })
    ));
    assert_eq!(p.bin_target_by_src_path("/ws/abc123/src/bin/a.rs").unwrap().name, "a");
    assert!(matches!(
        p.bin_target_by_src_path("/ws/abc123/src/lib.rs"),
        Err(CompeteError::BinTargetBySrcPathNotFound { .. })
    ));
}

#[test]
fn bin_targets_come_out_sorted() {
    let p = package(
        "id-a",
        "abc123",
        vec![
            bin_target("c", "/s/c.rs"),
            Target {
                name: "aa-lib".to_string(),
                kind: vec!["lib".to_string()],
                src_path: "/s/lib.rs".to_string(),
            },
            bin_target("a", "/s/a.rs"),
            bin_target("b", "/s/b.rs"),
        ],
    );
    let sorted = p.all_bin_targets_sorted();
    let names: Vec<&str> = sorted.iter().map(|t| t.name.as_str()).collect();
    assert_eq!(names, vec!["a", "b", "c"]);
}

#[test]
fn metadata_read_distinguishes_missing_and_malformed() {
    let p = package("id-a", "abc123", vec![]);
    let empty = Doc::new();
    assert!(matches!(
        p.read_package_metadata(&empty),
        Err(CompeteError::MissingMetadata { .. })
    ));

    let mut broken = Doc::new();
    broken.upsert(
        path(&["package", "metadata", "cargo-compete", "config"]),
        DocValue::Bool(true),
    );
    assert!(matches!(
        p.read_package_metadata(&broken),
        Err(CompeteError::MalformedMetadata { .. })
    ));
}

#[test]
fn bin_table_lookups_by_index_and_name() {
    let md = PackageMetadataCargoCompete {
        config: "cfg".to_string(),
        bin: vec![
            (
                "A".to_string(),
                PackageMetadataCargoCompeteBin {
                    name: "a".to_string(),
                    problem: TargetProblem::Atcoder {
                        contest: "abc123".to_string(),
                        index: "A".to_string(),
                        url: None,
                    },
                },
            ),
            (
                "B".to_string(),
                PackageMetadataCargoCompeteBin {
                    name: "b".to_string(),
                    problem: TargetProblem::Atcoder {
                        contest: "abc123".to_string(),
                        index: "B".to_string(),
                        url: None,
                    },
                },
            ),
        ],
    };
    assert_eq!(md.bin_by_bin_index("B").unwrap().name, "b");
    assert!(matches!(
        md.bin_by_bin_index("C"),
        Err(CompeteError::BinIndexNotFound { .. })
    ));
    assert_eq!(md.bin_by_bin_name("a").unwrap().name, "a");
    assert!(matches!(
        md.bin_by_bin_name("z"),
        Err(CompeteError::BinNameNotFound { .. })
    ));
}

#[test]
fn locate_project_walks_ancestors() {
    let existing = vec!["/ws/Cargo.toml".to_string()];
    let found = locate_project("/ws/abc123/src", &existing).unwrap();
    assert_eq!(found, "/ws/Cargo.toml");

    let nearer = vec!["/ws/Cargo.toml".to_string(), "/ws/abc123/Cargo.toml".to_string()];
    let found = locate_project("/ws/abc123/src", &nearer).unwrap();
    assert_eq!(found, "/ws/abc123/Cargo.toml");

    let none: Vec<String> = vec![];
    let r = locate_project("/ws/abc123", &none);
    match r {
        Err(CompeteError::ManifestNotFound { cwd }) => assert_eq!(cwd, "/ws/abc123"),
        _ => panic!("expected not-found"),
    }
}

#[test]
fn parent_walks_toward_root() {
    assert_eq!(parent_of("/a/b"), Some("/a".to_string()));
    assert_eq!(parent_of("/a"), Some("/".to_string()));
    assert_eq!(parent_of("/"), None);
    assert_eq!(parent_of("rel"), None);
}

#[test]
fn read_back_after_direct_doc_edits() {
    let mut doc = Doc::new();
    doc.upsert(
        path(&["package", "metadata", "cargo-compete", "config"]),
        DocValue::Str("cfg".to_string()),
    );
    let md = read_package_metadata_doc(&doc).unwrap();
    assert_eq!(md.config, "cfg");
    assert!(md.bin.is_empty());
}

#[test]
fn error_messages_name_their_context() {
    let e = CompeteError::BinIndexNotFound { index: "C".to_string() };
    assert_eq!(
        e.message(),
        "could not find `C` in `package.metadata.cargo-compete.bin`"
    );
    let e = CompeteError::MemberNotFound { spec: "abc".to_string() };
    assert_eq!(e.message(), "package `abc` is not a member of the workspace");
    let e = CompeteError::ToolchainError { message: "exit status 1".to_string() };
    assert!(e.message().contains("exit status 1"));
    let e = CompeteError::ManifestParseError { path: "/x/.cargo/config.toml".to_string() };
    assert!(e.message().contains("/x/.cargo/config.toml"));
    let e = CompeteError::IoError { path: "/x".to_string() };
    assert!(e.message().contains("/x"));
}
