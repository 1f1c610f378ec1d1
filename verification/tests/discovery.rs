use std::collections::HashMap;
use std::path::PathBuf;

use cargo_clean_global::discovery::{
    discover_projects, sort_discovery, DirEntryInfo, EntryKind, HostKind, ScanStage,
};
use cargo_clean_global::manifest::manifest_text_looks_like;
use cargo_clean_global::path::FsPath;
use cargo_clean_global::types::{CargoProject, DiscoveryResult, PathError};

fn p(s: &str) -> FsPath {
    FsPath::from_bytes(s.as_bytes().to_vec())
}

fn text(path: &FsPath) -> String {
    String::from_utf8(path.bytes.clone()).unwrap()
}

const UNIX: HostKind = HostKind { windows: false, macos: false, unix: true };
const MANIFEST: &str = "[package]\nname = \"demo\"\n";

#[derive(Clone, Copy)]
enum Kind {
    Dir,
    File(&'static str),
    Link,
}

/// Scans an in-memory tree; returns what was found and the directories
/// listed, in order.
fn scan(roots: &[&str], tree: &HashMap<&str, Vec<(&str, Kind)>>) -> (DiscoveryResult, Vec<String>) {
    let roots: Vec<FsPath> = roots.iter().map(|r| p(r)).collect();
    let mut scan = discover_projects(&roots, UNIX);
    let mut listed = Vec::new();
    let mut files: HashMap<String, &str> = HashMap::new();
    for (dir, entries) in tree {
        for (name, kind) in entries {
            if let Kind::File(content) = kind {
                files.insert(format!("{dir}/{name}"), content);
            }
        }
    }
    while !scan.is_finished() {
        match &scan.stage {
            ScanStage::List(dir) => {
                let d = text(dir);
                listed.push(d.clone());
                let listing = match tree.get(d.as_str()) {
                    None => Err(String::from("No such file or directory (os error 2)")),
                    Some(entries) => Ok(entries
                        .iter()
                        .map(|(name, kind)| {
                            DirEntryInfo::Listed(
                                name.as_bytes().to_vec(),
                                match kind {
                                    Kind::Dir => EntryKind::Directory,
                                    Kind::File(_) => EntryKind::File,
                                    Kind::Link => EntryKind::Symlink,
                                },
                            )
                        })
                        .collect()),
                };
                scan.listed(listing);
            }
            ScanStage::CheckManifest(_, manifest) => {
                let content = files.get(&text(manifest)).copied().unwrap_or("");
                scan.manifest_checked(Ok(manifest_text_looks_like(content)));
            }
            ScanStage::Normalize(dir, _) => {
                let d = dir.duplicate();
                scan.normalized(Some(d));
            }
            ScanStage::Finished => unreachable!(),
        }
    }
    (scan.into_result(), listed)
}

fn tree() -> HashMap<&'static str, Vec<(&'static str, Kind)>> {
    HashMap::from([
        ("/w", vec![("zeta", Kind::Dir), ("alpha", Kind::Dir), (".git", Kind::Dir), ("link", Kind::Link)]),
        ("/w/alpha", vec![("Cargo.toml", Kind::File(MANIFEST)), ("target", Kind::Dir), ("crates", Kind::Dir)]),
        ("/w/alpha/crates", vec![("inner", Kind::Dir)]),
        ("/w/alpha/crates/inner", vec![("Cargo.toml", Kind::File("[workspace]\n"))]),
        ("/w/zeta", vec![("Cargo.toml", Kind::File("[dependencies]\n")), ("node_modules", Kind::Dir)]),
        ("/w/.git", vec![("Cargo.toml", Kind::File(MANIFEST))]),
    ])
}

#[test]
fn scans_depth_first_in_name_order_and_skips_tool_directories() {
    let (result, listed) = scan(&["/w"], &tree());
    assert_eq!(listed, vec!["/w", "/w/alpha", "/w/alpha/crates", "/w/alpha/crates/inner", "/w/zeta"]);
    let roots: Vec<String> = result.projects.iter().map(|p| text(&p.root)).collect();
    assert_eq!(roots, vec!["/w/alpha", "/w/alpha/crates/inner"]);
    assert_eq!(text(&result.projects[0].manifest), "/w/alpha/Cargo.toml");
    assert!(result.errors.is_empty());
}

#[test]
fn overlapping_roots_report_each_project_once() {
    let (result, _) = scan(&["/w", "/w/alpha"], &tree());
    let roots: Vec<String> = result.projects.iter().map(|p| text(&p.root)).collect();
    assert_eq!(roots, vec!["/w/alpha", "/w/alpha/crates/inner"]);
}

#[test]
fn unreadable_directories_are_reported() {
    let (result, _) = scan(&["/missing", "/w/zeta"], &tree());
    assert!(result.projects.is_empty());
    assert_eq!(result.errors.len(), 1);
    assert_eq!(text(&result.errors[0].path), "/missing");
    assert_eq!(result.errors[0].message, "failed to read directory: No such file or directory (os error 2)");
}

#[test]
fn entry_problems_are_reported_in_order() {
    let roots = vec![p("/d")];
    let mut scan = discover_projects(&roots, UNIX);
    scan.listed(Ok(vec![
        DirEntryInfo::Unlisted(String::from("e1")),
        DirEntryInfo::Uninspected(b"x".to_vec(), String::from("e2")),
        DirEntryInfo::Listed(b"Cargo.toml".to_vec(), EntryKind::File),
    ]));
    assert!(matches!(scan.stage, ScanStage::CheckManifest(_, _)));
    scan.manifest_checked(Err(String::from("e3")));
    assert!(scan.is_finished());
    let result = scan.into_result();
    let errors: Vec<(String, String)> =
        result.errors.iter().map(|e| (text(&e.path), e.message.clone())).collect();
    assert_eq!(
        errors,
        vec![
            (String::from("/d"), String::from("failed to enumerate directory entry: e1")),
            (String::from("/d/x"), String::from("failed to inspect file type: e2")),
            (String::from("/d/Cargo.toml"), String::from("failed to parse manifest: e3")),
        ]
    );
}

#[test]
fn unresolvable_project_directory_keeps_its_listed_path() {
    let roots = vec![p("/d")];
    let mut scan = discover_projects(&roots, UNIX);
    scan.listed(Ok(vec![DirEntryInfo::Listed(b"Cargo.toml".to_vec(), EntryKind::File)]));
    scan.manifest_checked(Ok(true));
    assert!(scan.normalized(None));
    let result = scan.into_result();
    assert_eq!(text(&result.projects[0].root), "/d");
}

#[test]
fn no_roots_means_nothing_to_scan() {
    let scan = discover_projects(&Vec::new(), UNIX);
    assert!(scan.is_finished());
}

#[test]
fn sorting_orders_projects_by_root_and_errors_by_path() {
    let project = |root: &str, manifest: &str| CargoProject { root: p(root), manifest: p(manifest) };
    let error = |path: &str, message: &str| PathError { path: p(path), message: message.to_string() };
    let found = DiscoveryResult {
        projects: vec![
            project("/w/b", "/w/b/Cargo.toml"),
            project("/w/a-b", "/w/a-b/Cargo.toml"),
            project("/w/a/z", "/w/a/z/Cargo.toml"),
            project("/w/a", "/w/a/Cargo.toml"),
        ],
        errors: vec![
            error("/w/c", "second"),
            error("/w/a", "only"),
            error("/w/c", "third"),
            error("/w//c/", "first-looking"),
        ],
    };
    let sorted = sort_discovery(found);
    let roots: Vec<String> = sorted.projects.iter().map(|x| text(&x.root)).collect();
    // Paths compare by components: "/w/a" and its children come before "/w/a-b".
    assert_eq!(roots, vec!["/w/a", "/w/a/z", "/w/a-b", "/w/b"]);
    let errors: Vec<(String, String)> =
        sorted.errors.iter().map(|e| (text(&e.path), e.message.clone())).collect();
    assert_eq!(
        errors,
        vec![
            ("/w/a".to_string(), "only".to_string()),
            ("/w/c".to_string(), "second".to_string()),
            ("/w/c".to_string(), "third".to_string()),
            ("/w//c/".to_string(), "first-looking".to_string()),
        ]
    );
}

#[test]
fn sorting_matches_std_path_order() {
    let roots = ["/x/y", "/x", "x", "./x", "/x/../y", "/a/b/c", "/a/bc", "/a//b"];
    let found = DiscoveryResult {
        projects: roots
            .iter()
            .map(|r| CargoProject { root: p(r), manifest: p(r) })
            .collect(),
        errors: Vec::new(),
    };
    let sorted = sort_discovery(found);
    let mut expected: Vec<PathBuf> = roots.iter().map(PathBuf::from).collect();
    expected.sort();
    let got: Vec<PathBuf> = sorted.projects.iter().map(|x| PathBuf::from(text(&x.root))).collect();
    assert_eq!(got, expected);
}

#[test]
fn children_and_manifest_are_joined_onto_the_listed_directory() {
    let roots = vec![p("/r/")];
    let mut scan = discover_projects(&roots, UNIX);
    scan.listed(Ok(vec![
        DirEntryInfo::Listed(b"sub".to_vec(), EntryKind::Directory),
        DirEntryInfo::Listed(b"Cargo.toml".to_vec(), EntryKind::File),
    ]));
    match &scan.stage {
        ScanStage::CheckManifest(dir, manifest) => {
            assert_eq!(text(dir), "/r/");
            assert_eq!(text(manifest), "/r/Cargo.toml");
        }
        _ => panic!("expected the manifest check"),
    }
    scan.manifest_checked(Ok(false));
    match &scan.stage {
        ScanStage::List(dir) => assert_eq!(text(dir), "/r/sub"),
        _ => panic!("expected the child directory next"),
    }
}
