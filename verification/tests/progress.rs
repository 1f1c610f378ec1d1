use cargo_clean_global::path::FsPath;
use cargo_clean_global::progress::{cleanup_progress_message, scan_finish_message, scan_message};
use cargo_clean_global::types::{CargoProject, CleanedProject, CleanupReport, PathError};

fn p(s: &str) -> FsPath {
    FsPath::from_bytes(s.as_bytes().to_vec())
}

#[test]
fn scan_message_names_the_root_by_its_place() {
    let roots = vec![p("/home/u"), p("/work")];
    assert_eq!(
        scan_message(&roots, &p("/work"), 3, 2048, &p("/work/src")),
        "[root 2/2] /work Scanning crates...  found: 3  target: 2.0 KB \n /work/src "
    );
    // The same path written differently still finds its place.
    assert_eq!(
        scan_message(&roots, &p("/home//u/"), 0, 0, &p("/home/u")),
        "[root 1/2] /home//u/ Scanning crates...  found: 0  target: 0 B \n /home/u "
    );
    assert_eq!(
        scan_message(&roots, &p("/elsewhere"), 1, 10, &p("/elsewhere/a")),
        "/elsewhere Scanning crates...  found: 1  target: 10 B \n /elsewhere/a "
    );
}

#[test]
fn scan_finish_message_counts() {
    assert_eq!(
        scan_finish_message(4, 1, 1536),
        " Scan complete: found 4 Cargo project(s), target total 1.5 KB, errors 1\n"
    );
}

fn report() -> CleanupReport {
    let entry = |size: u64| CleanedProject { root: p("/w/a"), target: p("/w/a/target"), size_bytes: size };
    CleanupReport {
        cleaned: vec![entry(1024), entry(2048)],
        dry_runs: vec![entry(512)],
        skipped_missing_target: 0,
        skipped_unsafe: Vec::new(),
        errors: Vec::new(),
    }
}

#[test]
fn cleanup_progress_message_shows_counts_and_target() {
    let project = CargoProject { root: p("/w/a"), manifest: p("/w/a/Cargo.toml") };
    assert_eq!(
        cleanup_progress_message(&project, &report(), false, &Ok(p("/w/a/target"))),
        "cleaned: 2  freed: 3.0 KB\n  - project: /w/a\n  - target: /w/a/target"
    );
    let unresolved = Err(PathError { path: p("/w/a"), message: String::from("bad config") });
    assert_eq!(
        cleanup_progress_message(&project, &report(), true, &unresolved),
        "would clean: 1  freed: 512 B\n  - project: /w/a\n  - target: <target unresolved>"
    );
}
