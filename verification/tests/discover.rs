use cargo_eventflow::discover::{
    classify_members, kind_from_matches, nearest_manifest, CrateInfo, CrateKind, DiscoverConfig,
    DiscoverError, Package, Workspace,
};
use cargo_eventflow::sources::{is_rust_file, select_sources, source_dirs};

fn packages() -> Vec<Package> {
    ["service-b", "service-a", "lib-c", "bench-d"]
        .iter()
        .map(|name| Package {
            name: name.to_string(),
            path: format!("/ws/{name}"),
        })
        .collect()
}

fn discover(config: &DiscoverConfig) -> Result<Workspace, DiscoverError> {
    let members = classify_members(&packages(), config)?;
    Ok(Workspace::from_members("/ws".to_string(), members))
}

#[test]
fn classify_defaults_to_service() {
    let workspace = discover(&DiscoverConfig::default()).unwrap();

    assert_eq!(workspace.members.len(), 4);
    assert!(workspace
        .members
        .iter()
        .all(|c| c.kind == CrateKind::Service));
}

#[test]
fn classify_respects_ignore() {
    let config = DiscoverConfig {
        ignore: vec!["bench-*".to_string()],
        ..Default::default()
    };
    let workspace = discover(&config).unwrap();

    assert_eq!(workspace.members.len(), 3);
    assert!(workspace.members.iter().all(|c| c.name != "bench-d"));
}

#[test]
fn classify_libraries_separate_from_services() {
    let config = DiscoverConfig {
        services: vec!["service-*".to_string()],
        libraries: vec!["lib-*".to_string()],
        ignore: vec!["bench-*".to_string()],
        ..Default::default()
    };
    let workspace = discover(&config).unwrap();

    let services: Vec<_> = workspace.services().iter().map(|c| c.name.clone()).collect();
    let libraries: Vec<_> = workspace.libraries().iter().map(|c| c.name.clone()).collect();
    assert_eq!(services, vec!["service-a", "service-b"]);
    assert_eq!(libraries, vec!["lib-c"]);
}

#[test]
fn explicit_services_excludes_unmatched() {
    let config = DiscoverConfig {
        services: vec!["service-a".to_string()],
        ..Default::default()
    };
    let workspace = discover(&config).unwrap();
    let names: Vec<_> = workspace.members.iter().map(|c| c.name.as_str()).collect();
    assert_eq!(names, vec!["service-a"]);
}

#[test]
fn members_sorted_alphabetically() {
    let workspace = discover(&DiscoverConfig::default()).unwrap();
    let names: Vec<_> = workspace.members.iter().map(|c| c.name.as_str()).collect();
    let mut sorted = names.clone();
    sorted.sort_unstable();
    assert_eq!(names, sorted);
}

#[test]
fn invalid_glob_returns_typed_error() {
    let config = DiscoverConfig {
        services: vec!["[unclosed".to_string()],
        ..Default::default()
    };
    let err = discover(&config).unwrap_err();
    assert!(matches!(err, DiscoverError::InvalidGlob { .. }));
}

fn found(paths: &[&str]) -> Vec<Vec<String>> {
    paths
        .iter()
        .map(|p| p.split('/').map(String::from).collect())
        .collect()
}

fn selected(paths: &[&str], include_test_files: bool) -> Vec<String> {
    select_sources(&found(paths), include_test_files)
        .iter()
        .map(|p| p.join("/"))
        .collect()
}

#[test]
fn source_files_include_only_src_by_default() {
    let files = selected(&["src/lib.rs", "tests/it.rs"], false);
    assert_eq!(files.len(), 1, "default skips tests/");
    assert!(files[0].ends_with("src/lib.rs"));
}

#[test]
fn source_files_include_tests_when_opted_in() {
    let files = selected(&["src/lib.rs", "tests/it.rs"], true);
    assert_eq!(files.len(), 2);
}

#[test]
fn source_directories() {
    assert_eq!(source_dirs(false), vec!["src"]);
    assert_eq!(source_dirs(true), vec!["src", "tests", "examples", "benches"]);
}

#[test]
fn source_files_go_by_extension() {
    assert!(is_rust_file("a.rs"));
    assert!(is_rust_file("a.b.rs"));
    assert!(is_rust_file("..rs"));
    assert!(!is_rust_file(".rs"));
    assert!(!is_rust_file("rs"));
    assert!(!is_rust_file("a.RS"));
    assert!(!is_rust_file("a.rs.bak"));
    assert_eq!(selected(&["src/a.txt", "src/b.rs", "build.rs"], true), vec!["src/b.rs"]);
}

#[test]
fn source_files_come_by_the_parts_of_their_paths() {
    let files = ["tests/z.rs", "src/a-b.rs", "src/a/c.rs", "src/a.rs", "benches/b.rs", "src/a/b.rs"];
    assert_eq!(
        selected(&files, true),
        vec!["benches/b.rs", "src/a/b.rs", "src/a/c.rs", "src/a-b.rs", "src/a.rs", "tests/z.rs"]
    );
}

#[test]
fn ignore_comes_before_libraries_and_services() {
    let config = DiscoverConfig {
        services: vec!["*".to_string()],
        libraries: vec!["*-c".to_string()],
        ignore: vec!["lib-*".to_string()],
        ..Default::default()
    };
    let members = classify_members(&packages(), &config).unwrap();
    assert!(members.iter().all(|c| c.name != "lib-c"));
    assert_eq!(members.len(), 3);
}

#[test]
fn members_keep_the_order_of_the_packages() {
    let members = classify_members(&packages(), &DiscoverConfig::default()).unwrap();
    let names: Vec<_> = members.iter().map(|c| c.name.as_str()).collect();
    assert_eq!(names, vec!["service-b", "service-a", "lib-c", "bench-d"]);
    assert!(members.iter().all(|c| c.source_files.is_empty()));
    assert_eq!(members[0].path, "/ws/service-b");
}

#[test]
fn first_invalid_pattern_is_named() {
    let config = DiscoverConfig {
        libraries: vec!["ok-*".to_string(), "[x".to_string(), "{y".to_string()],
        ignore: vec!["[z".to_string()],
        ..Default::default()
    };
    match classify_members(&packages(), &config) {
        Err(DiscoverError::InvalidGlob { pattern, source }) => {
            assert_eq!(pattern, "[x");
            assert!(!source.is_empty());
        }
        other => panic!("expected InvalidGlob, got {other:?}"),
    }
}

#[test]
fn members_are_packages_whatever_the_patterns_mean() {
    let odd = vec![
        Package {
            name: "a\\b".to_string(),
            path: "/ws/1".to_string(),
        },
        Package {
            name: "c".to_string(),
            path: "/ws/2".to_string(),
        },
    ];
    let members = classify_members(&odd, &DiscoverConfig::default()).unwrap();
    let found: Vec<_> = members
        .iter()
        .map(|m| (m.name.as_str(), m.path.as_str(), m.kind))
        .collect();
    assert_eq!(
        found,
        vec![("a\\b", "/ws/1", CrateKind::Service), ("c", "/ws/2", CrateKind::Service)]
    );
    let libraries = DiscoverConfig {
        libraries: vec!["a\\*".to_string(), "c".to_string()],
        ..Default::default()
    };
    let members = classify_members(&odd, &libraries).unwrap();
    assert_eq!(members.len(), 2);
    assert_eq!(members[1].kind, CrateKind::Library);
    assert!(members.iter().all(|m| m.source_files.is_empty()));
}

#[test]
fn nearest_manifest_is_taken() {
    assert_eq!(nearest_manifest(&[true, true]), Some(0));
    assert_eq!(nearest_manifest(&[false, false, true, true]), Some(2));
    assert_eq!(nearest_manifest(&[false, false]), None);
    assert_eq!(nearest_manifest(&[]), None);
}

#[test]
fn configuration_and_workspace_can_be_cloned() {
    let config = DiscoverConfig {
        services: vec!["service-*".to_string()],
        libraries: vec!["lib-*".to_string()],
        ignore: vec!["bench-*".to_string()],
        ..Default::default()
    };
    let workspace = discover(&config.clone()).unwrap();
    let copy = workspace.clone();
    assert_eq!(format!("{:?}", config.clone()), format!("{config:?}"));
    assert_eq!(format!("{copy:?}"), format!("{workspace:?}"));
    assert_eq!(copy.members.len(), 3);
}

#[test]
fn kind_from_matches_prefers_ignore_then_library() {
    assert_eq!(kind_from_matches(true, true, true, true), CrateKind::Ignored);
    assert_eq!(kind_from_matches(true, true, true, false), CrateKind::Library);
    assert_eq!(kind_from_matches(true, true, false, false), CrateKind::Service);
    assert_eq!(kind_from_matches(true, false, false, false), CrateKind::Ignored);
    assert_eq!(kind_from_matches(false, false, false, false), CrateKind::Service);
}

#[test]
fn members_of_the_same_name_keep_their_order() {
    let member = |name: &str, path: &str| CrateInfo {
        name: name.to_string(),
        path: path.to_string(),
        kind: CrateKind::Service,
        source_files: vec![],
    };
    let ws = Workspace::from_members(
        "/ws".to_string(),
        vec![member("b", "1"), member("a", "2"), member("b", "3"), member("a", "4")],
    );
    let paths: Vec<_> = ws.members.iter().map(|c| c.path.as_str()).collect();
    assert_eq!(paths, vec!["2", "4", "1", "3"]);
    assert_eq!(ws.root, "/ws");
}

#[test]
fn discover_error_messages() {
    assert_eq!(
        DiscoverError::Metadata("boom".to_string()).to_string(),
        "cargo metadata failed: boom"
    );
    let glob = DiscoverError::InvalidGlob {
        pattern: "[a\"".to_string(),
        source: "bad".to_string(),
    };
    assert_eq!(glob.to_string(), "invalid glob pattern \"[a\\\"\": bad");
    let io = DiscoverError::Io {
        path: "src".to_string(),
        source: "gone".to_string(),
    };
    assert_eq!(io.to_string(), "I/O error walking src: gone");
}
