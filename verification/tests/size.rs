use cargo_clean_global::path::FsPath;
use cargo_clean_global::size::{
    cleaned_size_bytes, cleanup_finish_message, directory_size_bytes, exit_status, format_bytes,
    summary_lines, SizeEntryKind,
};
use cargo_clean_global::types::{CleanedProject, CleanupReport, PathError, SkippedProject};

fn float_reference(bytes: u64) -> String {
    let units = ["B", "KB", "MB", "GB", "TB"];
    let mut value = bytes as f64;
    let mut unit_index = 0;
    while value >= 1024.0 && unit_index < units.len() - 1 {
        value /= 1024.0;
        unit_index += 1;
    }
    if unit_index == 0 {
        format!("{bytes} {}", units[unit_index])
    } else {
        format!("{value:.1} {}", units[unit_index])
    }
}

#[test]
fn format_bytes_exact_values() {
    assert_eq!(format_bytes(0), "0 B");
    assert_eq!(format_bytes(1023), "1023 B");
    assert_eq!(format_bytes(1024), "1.0 KB");
    assert_eq!(format_bytes(1536), "1.5 KB");
    assert_eq!(format_bytes(1024 * 1024 - 1), "1024.0 KB");
    assert_eq!(format_bytes(1024 * 1024), "1.0 MB");
    assert_eq!(format_bytes(3 * 1024 * 1024 * 1024), "3.0 GB");
    assert_eq!(format_bytes(1u64 << 40), "1.0 TB");
    assert_eq!(format_bytes(u64::MAX), "16777216.0 TB");
}

#[test]
fn format_bytes_rounds_halfway_to_even() {
    // 1280 bytes is exactly 1.25 KB and 1792 exactly 1.75 KB.
    assert_eq!(format_bytes(1280), float_reference(1280));
    assert_eq!(format_bytes(1792), float_reference(1792));
    assert_eq!(format_bytes(1280), "1.2 KB");
    assert_eq!(format_bytes(1792), "1.8 KB");
}

#[test]
fn format_bytes_matches_float_formatting() {
    let mut x: u64 = 0x9e37_79b9_7f4a_7c15;
    for shift in 0..64u32 {
        for _ in 0..200 {
            x = x.wrapping_mul(6364136223846793005).wrapping_add(1442695040888963407);
            let value = x >> shift;
            assert_eq!(format_bytes(value), float_reference(value), "{value}");
        }
    }
    for edge in [
        (1u64 << 53) - 1,
        1u64 << 53,
        (1u64 << 53) + 1,
        (1u64 << 53) + 3,
        u64::MAX - 1,
        u64::MAX - 1024,
        1024 * 1024 * 1024 * 1024 - 1,
        5 * 1024 / 100 * 1024,
    ] {
        assert_eq!(format_bytes(edge), float_reference(edge), "{edge}");
    }
}

fn entry(size: u64) -> CleanedProject {
    CleanedProject {
        root: FsPath::from_bytes(b"/p".to_vec()),
        target: FsPath::from_bytes(b"/p/target".to_vec()),
        size_bytes: size,
    }
}

fn report() -> CleanupReport {
    CleanupReport {
        cleaned: vec![entry(1024), entry(512)],
        dry_runs: vec![entry(u64::MAX), entry(10)],
        skipped_missing_target: 2,
        skipped_unsafe: vec![SkippedProject {
            root: FsPath::from_bytes(b"/q".to_vec()),
            reason: String::from("target is a symlink and was left untouched"),
        }],
        errors: vec![PathError {
            path: FsPath::from_bytes(b"/r".to_vec()),
            message: String::from("failed"),
        }],
    }
}

#[test]
fn cleaned_size_adds_up_and_saturates() {
    let r = report();
    assert_eq!(cleaned_size_bytes(&r, false), 1536);
    assert_eq!(cleaned_size_bytes(&r, true), u64::MAX);
    assert_eq!(cleaned_size_bytes(&CleanupReport::new(), false), 0);
}

#[test]
fn cleanup_finish_message_counts_every_project() {
    let r = report();
    assert_eq!(
        cleanup_finish_message(&r, false),
        "Cleanup complete:\nprocessed 8, cleaned 2, freed 1.5 KB, errors 1\n"
    );
    assert_eq!(
        cleanup_finish_message(&r, true),
        "Evaluation complete:\nprocessed 8, cleaned 2, freed 16777216.0 TB, errors 1\n"
    );
}

#[test]
fn summary_lines_and_exit_status() {
    let r = report();
    assert_eq!(
        summary_lines(7, 3, &r, false),
        vec![
            "Summary:",
            "  Found: 7 projects",
            "  Cleaned: 2 (1.5 KB)",
            "  Skipped (missing target): 2",
            "  Skipped (safety rules): 1",
            "  Errors: 4",
        ]
    );
    assert_eq!(summary_lines(0, 0, &CleanupReport::new(), true)[2], "  Would clean: 0 (0 B)");
    assert_eq!(exit_status(0, &CleanupReport::new()), 0);
    assert_eq!(exit_status(1, &CleanupReport::new()), 1);
    assert_eq!(exit_status(0, &r), 1);
}

#[test]
fn size_walk_adds_files_and_queues_directories() {
    let mut walk = directory_size_bytes(FsPath::from_bytes(b"/t".to_vec()));
    let first = walk.next_dir().expect("the start directory is listed first");
    assert_eq!(first.bytes, b"/t".to_vec());
    walk.visit(FsPath::from_bytes(b"/t/a".to_vec()), SizeEntryKind::File, 100);
    walk.visit(FsPath::from_bytes(b"/t/d".to_vec()), SizeEntryKind::Directory, 4096);
    walk.visit(FsPath::from_bytes(b"/t/l".to_vec()), SizeEntryKind::Other, 999);
    assert_eq!(walk.total, 100);
    let next = walk.next_dir().expect("the subdirectory is listed next");
    assert_eq!(next.bytes, b"/t/d".to_vec());
    walk.visit(FsPath::from_bytes(b"/t/d/big".to_vec()), SizeEntryKind::File, u64::MAX);
    assert_eq!(walk.total, u64::MAX);
    assert!(walk.next_dir().is_none());
}
