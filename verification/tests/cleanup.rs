use std::collections::HashMap;

use cargo_clean_global::cleanup::{
    clean_projects, CleanupEvent, CleanupRun, ProjectCleanup, Stage, TargetKind,
};
use cargo_clean_global::manifest::manifest_text_looks_like;
use cargo_clean_global::path::FsPath;
use cargo_clean_global::types::{CargoProject, CleanupReport, CleanupStatus};

fn p(s: &str) -> FsPath {
    FsPath::from_bytes(s.as_bytes().to_vec())
}

fn text(path: &FsPath) -> String {
    String::from_utf8(path.bytes.clone()).unwrap()
}

const MANIFEST: &str = "[package]\nname = \"demo\"\nversion = \"0.1.0\"\n";

enum Node {
    Dir,
    File(&'static str),
    Link(&'static str),
}

/// An in-memory file system, with the paths removed so far.
struct Fs {
    nodes: HashMap<String, Node>,
    removed: Vec<String>,
    configured: HashMap<String, String>,
}

impl Fs {
    fn new(nodes: Vec<(&str, Node)>) -> Fs {
        Fs {
            nodes: nodes.into_iter().map(|(k, v)| (k.to_string(), v)).collect(),
            removed: Vec::new(),
            configured: HashMap::new(),
        }
    }

    fn present(&self, path: &str) -> bool {
        self.nodes.contains_key(path) && !self.removed.iter().any(|r| path == r || path.starts_with(&format!("{r}/")))
    }

    fn event_for(&mut self, job: &ProjectCleanup) -> CleanupEvent {
        match &job.stage {
            Stage::ResolveTarget => {
                let root = text(&job.project.root);
                let target = match self.configured.get(&root) {
                    Some(t) => p(t),
                    None => job.project.root.join_text("target"),
                };
                CleanupEvent::TargetResolved(Ok(target))
            }
            Stage::Inspect(target) => CleanupEvent::TargetInspected(match self.nodes.get(&text(target)) {
                None => TargetKind::Missing,
                Some(Node::Dir) => TargetKind::Directory,
                Some(Node::File(_)) => TargetKind::NotDirectory,
                Some(Node::Link(_)) => TargetKind::Symlink,
            }),
            Stage::Canonicalize(target) => {
                let t = text(target);
                let canonical = match self.nodes.get(&t) {
                    Some(Node::Link(to)) => to.to_string(),
                    _ => t.trim_end_matches("/.").to_string(),
                };
                CleanupEvent::TargetCanonicalized(Ok(p(&canonical)))
            }
            Stage::CheckManifest(_) => CleanupEvent::ManifestChecked(match self.nodes.get(&text(&job.project.manifest)) {
                Some(Node::File(content)) => Ok(manifest_text_looks_like(content)),
                _ => Err(String::from("No such file or directory (os error 2)")),
            }),
            Stage::Measure(target) => {
                let prefix = format!("{}/", text(target));
                let total: u64 = self
                    .nodes
                    .iter()
                    .filter(|(k, _)| k.starts_with(&prefix))
                    .map(|(_, v)| match v {
                        Node::File(c) => c.len() as u64,
                        _ => 0,
                    })
                    .sum();
                CleanupEvent::TargetMeasured(Ok(total))
            }
            Stage::Remove(entry) => {
                self.removed.push(text(&entry.target));
                CleanupEvent::TargetRemoved(Ok(()))
            }
            Stage::Done(_) => unreachable!("a finished job takes no events"),
        }
    }
}

fn clean(projects: &[CargoProject], dry_run: bool, fs: &mut Fs) -> CleanupReport {
    let mut run: CleanupRun = clean_projects(&projects.to_vec(), dry_run);
    let mut finished = Vec::new();
    while !run.is_finished() {
        let event = fs.event_for(run.job.as_ref().unwrap());
        if let Some(index) = run.handle(event) {
            finished.push(index);
        }
    }
    assert_eq!(finished, (0..projects.len()).collect::<Vec<_>>());
    run.report
}

fn project(root: &str) -> CargoProject {
    CargoProject { root: p(root), manifest: p(&format!("{root}/Cargo.toml")) }
}

#[test]
fn dry_run_reports_target_without_deleting_it() {
    let mut fs = Fs::new(vec![
        ("/r", Node::Dir),
        ("/r/Cargo.toml", Node::File(MANIFEST)),
        ("/r/target", Node::Dir),
        ("/r/target/artifact.txt", Node::File("compiled output")),
    ]);
    let report = clean(&[project("/r")], true, &mut fs);
    assert_eq!(report.dry_runs.len(), 1);
    assert!(report.cleaned.is_empty());
    assert!(fs.present("/r/target"));
    assert_eq!(report.dry_runs[0].size_bytes, 15);
    assert_eq!(text(&report.dry_runs[0].target), "/r/target");
}

#[test]
fn clean_removes_target_directory() {
    let mut fs = Fs::new(vec![
        ("/r", Node::Dir),
        ("/r/Cargo.toml", Node::File(MANIFEST)),
        ("/r/target", Node::Dir),
        ("/r/target/artifact.txt", Node::File("compiled output")),
    ]);
    let report = clean(&[project("/r")], false, &mut fs);
    assert_eq!(report.cleaned.len(), 1);
    assert!(report.dry_runs.is_empty());
    assert!(!fs.present("/r/target"));
    assert!(fs.present("/r/Cargo.toml"));
}

#[test]
fn clean_skips_missing_target_directory() {
    let mut fs = Fs::new(vec![("/r", Node::Dir), ("/r/Cargo.toml", Node::File(MANIFEST))]);
    let report = clean(&[project("/r")], false, &mut fs);
    assert!(report.cleaned.is_empty());
    assert!(report.dry_runs.is_empty());
    assert_eq!(report.skipped_missing_target, 1);
    assert!(report.errors.is_empty());
}

#[test]
fn clean_skips_target_when_it_is_not_a_directory() {
    let mut fs = Fs::new(vec![
        ("/r", Node::Dir),
        ("/r/Cargo.toml", Node::File(MANIFEST)),
        ("/r/target", Node::File("not a directory")),
    ]);
    let report = clean(&[project("/r")], false, &mut fs);
    assert!(report.cleaned.is_empty());
    assert!(report.dry_runs.is_empty());
    assert_eq!(report.skipped_unsafe.len(), 1);
    assert!(report.errors.is_empty());
    assert!(fs.present("/r/target"));
    assert_eq!(report.skipped_unsafe[0].reason, "target exists but is not a directory");
}

#[test]
fn clean_skips_target_when_it_is_a_symlink() {
    let mut fs = Fs::new(vec![
        ("/r", Node::Dir),
        ("/r/Cargo.toml", Node::File(MANIFEST)),
        ("/r/real-target", Node::Dir),
        ("/r/target", Node::Link("/r/real-target")),
    ]);
    let report = clean(&[project("/r")], false, &mut fs);
    assert!(report.cleaned.is_empty());
    assert!(report.dry_runs.is_empty());
    assert_eq!(report.skipped_unsafe.len(), 1);
    assert!(report.errors.is_empty());
    assert!(fs.present("/r/target"));
    assert!(fs.present("/r/real-target"));
    assert_eq!(report.skipped_unsafe[0].reason, "target is a symlink and was left untouched");
}

#[test]
fn configured_targets_outside_or_at_the_root_are_left_alone() {
    let mut fs = Fs::new(vec![
        ("/a", Node::Dir),
        ("/a/Cargo.toml", Node::File(MANIFEST)),
        ("/shared", Node::Dir),
        ("/shared/x", Node::File("x")),
        ("/b", Node::Dir),
        ("/b/Cargo.toml", Node::File(MANIFEST)),
        ("/b/.", Node::Dir),
        ("/ab", Node::Dir),
        ("/ab/Cargo.toml", Node::File(MANIFEST)),
        ("/ab-out", Node::Dir),
    ]);
    fs.configured.insert(String::from("/a"), String::from("/shared"));
    fs.configured.insert(String::from("/b"), String::from("/b/."));
    fs.configured.insert(String::from("/ab"), String::from("/ab-out"));
    let report = clean(&[project("/a"), project("/b"), project("/ab")], false, &mut fs);
    assert!(report.cleaned.is_empty());
    let reasons: Vec<&str> = report.skipped_unsafe.iter().map(|s| s.reason.as_str()).collect();
    assert_eq!(
        reasons,
        vec![
            "configured target-dir resolves outside the Cargo project root",
            "resolved target directory is the Cargo project root",
            "configured target-dir resolves outside the Cargo project root",
        ]
    );
    assert!(fs.removed.is_empty());
}

#[test]
fn manifest_must_still_look_like_cargo() {
    let mut fs = Fs::new(vec![
        ("/r", Node::Dir),
        ("/r/Cargo.toml", Node::File("[dependencies]\n")),
        ("/r/target", Node::Dir),
        ("/s", Node::Dir),
        ("/s/target", Node::Dir),
    ]);
    let report = clean(&[project("/r"), project("/s")], false, &mut fs);
    let reasons: Vec<&str> = report.skipped_unsafe.iter().map(|s| s.reason.as_str()).collect();
    assert_eq!(
        reasons,
        vec![
            "Cargo.toml no longer looks like a Cargo manifest",
            "failed to re-read Cargo.toml before cleanup: No such file or directory (os error 2)",
        ]
    );
    assert!(fs.removed.is_empty());
}

#[test]
fn step_failures_become_errors_naming_the_project() {
    let mut job = ProjectCleanup::new(project("/r"), false);
    job.handle(CleanupEvent::TargetResolved(Ok(p("/r/target"))));
    job.handle(CleanupEvent::TargetInspected(TargetKind::Unreadable(String::from("denied"))));
    match &job.stage {
        Stage::Done(Err(e)) => {
            assert_eq!(text(&e.path), "/r");
            assert_eq!(e.message, "failed to inspect /r/target: denied");
        }
        _ => panic!("an unreadable target is an error"),
    }

    let mut job = ProjectCleanup::new(project("/r"), false);
    job.handle(CleanupEvent::TargetResolved(Ok(p("/r/target"))));
    job.handle(CleanupEvent::TargetInspected(TargetKind::Directory));
    job.handle(CleanupEvent::TargetCanonicalized(Err(String::from("gone"))));
    match &job.stage {
        Stage::Done(Err(e)) => assert_eq!(e.message, "failed to resolve /r/target: gone"),
        _ => panic!("a target that cannot be resolved is an error"),
    }

    let mut job = ProjectCleanup::new(project("/r"), false);
    job.handle(CleanupEvent::TargetResolved(Ok(p("/r/target"))));
    job.handle(CleanupEvent::TargetInspected(TargetKind::Directory));
    job.handle(CleanupEvent::TargetCanonicalized(Ok(p("/r/target"))));
    job.handle(CleanupEvent::ManifestChecked(Ok(true)));
    job.handle(CleanupEvent::TargetMeasured(Err(String::from("io"))));
    match &job.stage {
        Stage::Done(Err(e)) => assert_eq!(e.message, "failed to calculate size of /r/target: io"),
        _ => panic!("a target that cannot be measured is an error"),
    }

    let mut job = ProjectCleanup::new(project("/r"), false);
    job.handle(CleanupEvent::TargetResolved(Ok(p("/r/target"))));
    job.handle(CleanupEvent::TargetInspected(TargetKind::Directory));
    job.handle(CleanupEvent::TargetCanonicalized(Ok(p("/r/target"))));
    job.handle(CleanupEvent::ManifestChecked(Ok(true)));
    job.handle(CleanupEvent::TargetMeasured(Ok(7)));
    assert!(matches!(job.stage, Stage::Remove(_)));
    job.handle(CleanupEvent::TargetRemoved(Err(String::from("busy"))));
    match &job.stage {
        Stage::Done(Err(e)) => assert_eq!(e.message, "failed to delete /r/target: busy"),
        _ => panic!("a failed removal is an error"),
    }
}

#[test]
fn events_out_of_turn_change_nothing() {
    let mut job = ProjectCleanup::new(project("/r"), true);
    job.handle(CleanupEvent::TargetRemoved(Ok(())));
    assert!(matches!(job.stage, Stage::ResolveTarget));
    job.handle(CleanupEvent::TargetResolved(Ok(p("/r/target"))));
    job.handle(CleanupEvent::ManifestChecked(Ok(true)));
    assert!(matches!(job.stage, Stage::Inspect(_)));
}

#[test]
fn every_project_is_accounted_for_once() {
    let mut fs = Fs::new(vec![
        ("/a", Node::Dir),
        ("/a/Cargo.toml", Node::File(MANIFEST)),
        ("/a/target", Node::Dir),
        ("/b", Node::Dir),
        ("/b/Cargo.toml", Node::File(MANIFEST)),
        ("/c", Node::Dir),
        ("/c/Cargo.toml", Node::File(MANIFEST)),
        ("/c/target", Node::Link("/elsewhere")),
    ]);
    let report = clean(&[project("/a"), project("/b"), project("/c")], false, &mut fs);
    let total = report.cleaned.len()
        + report.dry_runs.len()
        + report.skipped_missing_target
        + report.skipped_unsafe.len()
        + report.errors.len();
    assert_eq!(total, 3);
    assert!(matches!(
        report.cleaned.first().map(|c| text(&c.root)),
        Some(ref r) if r == "/a"
    ));
    let _ = CleanupStatus::MissingTarget;
}
