use cargo_clean_global::cli::Cli;
use cargo_clean_global::path::FsPath;
use cargo_clean_global::roots::{default_scan_roots, prepare_scan_roots, roots_stop, scan_root_candidates};

fn p(s: &str) -> FsPath {
    FsPath::from_bytes(s.as_bytes().to_vec())
}

fn texts(v: &[FsPath]) -> Vec<String> {
    v.iter().map(|x| String::from_utf8(x.bytes.clone()).unwrap()).collect()
}

fn cli(roots: &[&str]) -> Cli {
    Cli { dry_run: false, yes: false, roots: roots.iter().map(|r| p(r)).collect() }
}

#[test]
fn default_roots_are_home_and_an_outside_current_directory() {
    assert_eq!(texts(&default_scan_roots(Some(p("/home/u")), Some(p("/work")))), vec!["/home/u", "/work"]);
    assert_eq!(texts(&default_scan_roots(Some(p("/home/u")), Some(p("/home/u/src")))), vec!["/home/u"]);
    assert_eq!(texts(&default_scan_roots(Some(p("/home/u")), Some(p("/home/u")))), vec!["/home/u"]);
    assert_eq!(texts(&default_scan_roots(Some(p("/home/u")), Some(p("/home/user")))), vec!["/home/u", "/home/user"]);
    assert_eq!(texts(&default_scan_roots(None, Some(p("/work")))), vec!["/work"]);
    assert!(default_scan_roots(None, None).is_empty());
}

#[test]
fn given_roots_replace_the_defaults() {
    let defaults = vec![p("/home/u")];
    assert_eq!(texts(&scan_root_candidates(&cli(&[]), defaults.clone())), vec!["/home/u"]);
    assert_eq!(texts(&scan_root_candidates(&cli(&["a", "b"]), defaults)), vec!["a", "b"]);
}

#[test]
fn roots_are_deduplicated_and_sorted() {
    let c = cli(&["b", "a", "b2"]);
    let resolved = vec![(p("b"), Ok(p("/w/b"))), (p("a"), Ok(p("/w/a"))), (p("b2"), Ok(p("/w/b/")))];
    let roots = prepare_scan_roots(&c, resolved).unwrap();
    assert_eq!(texts(&roots), vec!["/w/a", "/w/b"]);
}

#[test]
fn a_bad_given_root_is_an_error_and_a_bad_default_is_dropped() {
    let c = cli(&["ok", "missing"]);
    let resolved = vec![
        (p("ok"), Ok(p("/w/ok"))),
        (p("missing"), Err(String::from("No such file or directory (os error 2)"))),
    ];
    assert_eq!(
        prepare_scan_roots(&c, resolved).unwrap_err(),
        "invalid scan root missing: No such file or directory (os error 2)"
    );
    let defaults = cli(&[]);
    let resolved = vec![(p("/home/u"), Err(String::from("gone"))), (p("/work"), Ok(p("/work")))];
    let roots = prepare_scan_roots(&defaults, resolved).unwrap();
    assert_eq!(texts(&roots), vec!["/work"]);
}

#[test]
fn roots_stops() {
    assert_eq!(roots_stop(&Ok(Vec::new())), Some((2, String::from("error: no readable scan roots were found"))));
    assert_eq!(
        roots_stop(&Err(String::from("invalid scan root x: gone"))),
        Some((2, String::from("error: invalid scan root x: gone")))
    );
    assert!(roots_stop(&Ok(vec![p("/w")])).is_none());
}
