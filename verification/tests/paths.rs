use std::cmp::Ordering as StdOrder;
use std::path::{Component as StdComponent, Path, PathBuf};

use cargo_clean_global::config::cargo_home_dir;
use cargo_clean_global::discovery::{should_skip_dir, HostKind};
use cargo_clean_global::path::{sort_paths, Component, FsPath, Order};

fn p(s: &str) -> FsPath {
    FsPath::from_bytes(s.as_bytes().to_vec())
}

fn text(path: &FsPath) -> String {
    String::from_utf8(path.bytes.clone()).expect("test paths are text")
}

const SAMPLES: &[&str] = &[
    "", "/", "//", "/a", "/a/", "a", "a/b", "./a", ".", "./", "..", "../x", "a/./b", "a//b/",
    "/a/b/c", "/a/b/.", "a/.", "/.", "./.", ".a", "a..", "/a/../b", ".hidden/x", "/a/b",
    "/a-b", "/a/b/c/", "b", "/ab", "//a//b", "x/y/z", "../", "/..", ".././a",
];

const UNIX: HostKind = HostKind { windows: false, macos: false, unix: true };

#[test]
fn should_skip_specified_prefix_dir() {
    assert!(should_skip_dir(&b".Trash".to_vec(), &UNIX));
}

#[test]
fn skipped_directory_names() {
    for name in ["TARGET", "Node_Modules", ".git", ".cache", "."] {
        assert!(should_skip_dir(&name.as_bytes().to_vec(), &UNIX), "{name}");
    }
    for name in ["src", "targets", "AppData", "Library", "my.cache"] {
        assert!(!should_skip_dir(&name.as_bytes().to_vec(), &UNIX), "{name}");
    }
    let windows = HostKind { windows: true, macos: false, unix: false };
    let macos = HostKind { windows: false, macos: true, unix: true };
    assert!(should_skip_dir(&b"appdata".to_vec(), &windows));
    assert!(should_skip_dir(&b"Library".to_vec(), &macos));
    assert!(!should_skip_dir(&b"library".to_vec(), &macos));
    // A name that is not text is never skipped, even when it starts with a dot.
    assert!(!should_skip_dir(&vec![b'.', 0xff], &UNIX));
}

#[test]
fn cargo_home_dir_prefers_env_var() {
    let current = p("/work/current");
    let resolved = cargo_home_dir(Some(p("relative-cargo-home")), Some(current.duplicate()), Some(p("/home/u")))
        .expect("cargo home should resolve");
    assert_eq!(resolved.bytes, b"/work/current/relative-cargo-home".to_vec());
}

#[test]
fn cargo_home_dir_fallbacks() {
    let home = Some(p("/home/u"));
    let abs = cargo_home_dir(Some(p("/opt/cargo")), None, home).unwrap();
    assert_eq!(abs.bytes, b"/opt/cargo".to_vec());
    let unset = cargo_home_dir(None, Some(p("/cwd")), Some(p("/home/u"))).unwrap();
    assert_eq!(unset.bytes, b"/home/u/.cargo".to_vec());
    let empty = cargo_home_dir(Some(p("")), Some(p("/cwd")), Some(p("/home/u"))).unwrap();
    assert_eq!(empty.bytes, b"/home/u/.cargo".to_vec());
    assert!(cargo_home_dir(Some(p("rel")), None, Some(p("/home/u"))).is_none());
    assert!(cargo_home_dir(None, Some(p("/cwd")), None).is_none());
}

fn kinds(path: &FsPath) -> Vec<String> {
    path.components()
        .iter()
        .map(|c| match c {
            Component::Root => String::from("/"),
            Component::Current => String::from("."),
            Component::Parent => String::from(".."),
            Component::Normal(n) => String::from_utf8(n.clone()).unwrap(),
        })
        .collect()
}

fn std_kinds(s: &str) -> Vec<String> {
    Path::new(s)
        .components()
        .map(|c| match c {
            StdComponent::RootDir => String::from("/"),
            StdComponent::CurDir => String::from("."),
            StdComponent::ParentDir => String::from(".."),
            StdComponent::Normal(n) => n.to_str().unwrap().to_string(),
            StdComponent::Prefix(_) => unreachable!(),
        })
        .collect()
}

#[test]
fn components_match_std() {
    for s in SAMPLES {
        assert_eq!(kinds(&p(s)), std_kinds(s), "{s:?}");
    }
}

#[test]
fn parent_matches_std() {
    for s in SAMPLES {
        let ours = p(s).parent().map(|x| text(&x));
        let theirs = Path::new(s).parent().map(|x| x.to_str().unwrap().to_string());
        assert_eq!(ours, theirs, "{s:?}");
    }
}

#[test]
fn join_matches_std() {
    for a in SAMPLES {
        for b in SAMPLES {
            let ours = text(&p(a).join(&p(b)));
            let mut theirs = PathBuf::from(a);
            theirs.push(b);
            assert_eq!(ours, theirs.to_str().unwrap(), "{a:?} + {b:?}");
        }
    }
}

#[test]
fn comparisons_match_std() {
    for a in SAMPLES {
        for b in SAMPLES {
            let ours = match p(a).compare(&p(b)) {
                Order::Less => StdOrder::Less,
                Order::Equal => StdOrder::Equal,
                Order::Greater => StdOrder::Greater,
            };
            assert_eq!(ours, Path::new(a).cmp(Path::new(b)), "{a:?} vs {b:?}");
            assert_eq!(p(a).same_as(&p(b)), Path::new(a) == Path::new(b), "{a:?} == {b:?}");
            assert_eq!(p(a).starts_with(&p(b)), Path::new(a).starts_with(b), "{a:?} starts with {b:?}");
        }
    }
}

#[test]
fn sort_matches_std() {
    let mut theirs: Vec<PathBuf> = SAMPLES.iter().map(PathBuf::from).collect();
    theirs.sort();
    let ours = sort_paths(SAMPLES.iter().map(|s| p(s)).collect());
    let ours: Vec<String> = ours.iter().map(text).collect();
    let theirs: Vec<String> = theirs.iter().map(|x| x.to_str().unwrap().to_string()).collect();
    assert_eq!(ours, theirs);
}

#[test]
fn display_replaces_invalid_bytes() {
    assert_eq!(p("/a/b").display(), "/a/b");
    assert_eq!(FsPath::from_bytes(vec![b'/', 0xff, b'x']).display(), "/\u{fffd}x");
}
