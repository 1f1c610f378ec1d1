//! The lines the progress displays show while scanning and cleaning.

use vstd::prelude::*;

use crate::path::{display_text, paths_model, same_path, FsPath};
use crate::size::{capped, cleaned_size_bytes, format_bytes, format_bytes_text, total_size};
use crate::text::{decimal, push_decimal, push_text, string_from_chars};
use crate::types::{CargoProject, CleanupReport, ErrorModel, PathError, ReportModel};

verus! {

/// The index of the first root at or after `from` that is the same path as
/// `root`, or -1.
pub open spec fn root_position(roots: Seq<Seq<u8>>, root: Seq<u8>, from: int) -> int
    decreases roots.len() - from,
{
    if from >= roots.len() {
        -1
    } else if same_path(roots[from], root) {
        from
    } else {
        root_position(roots, root, from + 1)
    }
}

proof fn lemma_root_position_bounds(roots: Seq<Seq<u8>>, root: Seq<u8>, from: int)
    requires
        0 <= from,
    ensures
        root_position(roots, root, from) == -1 || from <= root_position(roots, root, from) < roots.len(),
    decreases roots.len() - from,
{
    if from < roots.len() && !same_path(roots[from], root) {
        lemma_root_position_bounds(roots, root, from + 1);
    }
}

/// How the root being scanned is named: "[root i/n] path" by its place
/// among the scan roots, or just the path when it is not among them.
pub open spec fn root_label(roots: Seq<Seq<u8>>, root: Seq<u8>) -> Seq<char> {
    let i = root_position(roots, root, 0);
    if i < 0 {
        display_text(root)
    } else {
        "[root "@ + decimal((i + 1) as nat) + "/"@ + decimal(roots.len()) + "] "@ + display_text(root)
    }
}

/// The scan spinner's message while a directory is listed: the root, the
/// projects found so far, the size of their build output, and the
/// directory.
pub open spec fn scan_text(roots: Seq<Seq<u8>>, root: Seq<u8>, found: nat, target_total: nat, dir: Seq<u8>) -> Seq<char> {
    root_label(roots, root) + " Scanning crates...  found: "@ + decimal(found) + "  target: "@
        + format_bytes_text(target_total) + " \n "@ + display_text(dir) + " "@
}

/// Builds the scan spinner's message.
pub fn scan_message(roots: &Vec<FsPath>, root: &FsPath, found: usize, target_total: u64, dir: &FsPath) -> (r: String)
    ensures
        r@ == scan_text(paths_model(roots@), root@, found as nat, target_total as nat, dir@),
{
    let ghost rs = paths_model(roots@);
    let mut i: usize = 0;
    while i < roots.len() && !roots[i].same_as(root)
        invariant
            i <= roots.len(),
            rs == paths_model(roots@),
            root_position(rs, root@, 0) == root_position(rs, root@, i as int),
        decreases roots.len() - i,
    {
        assert(rs[i as int] == roots@[i as int]@);
        i = i + 1;
    }
    proof {
        if i < roots.len() {
            assert(rs[i as int] == roots@[i as int]@);
        }
    }
    let mut out: Vec<char> = Vec::new();
    if i < roots.len() {
        push_text(&mut out, "[root ");
        push_decimal(&mut out, i as u128 + 1);
        push_text(&mut out, "/");
        push_decimal(&mut out, roots.len() as u128);
        push_text(&mut out, "] ");
    }
    let shown_root = root.display();
    push_text(&mut out, shown_root.as_str());
    push_text(&mut out, " Scanning crates...  found: ");
    push_decimal(&mut out, found as u128);
    push_text(&mut out, "  target: ");
    let total = format_bytes(target_total);
    push_text(&mut out, total.as_str());
    push_text(&mut out, " \n ");
    let shown_dir = dir.display();
    push_text(&mut out, shown_dir.as_str());
    push_text(&mut out, " ");
    proof {
        lemma_root_position_bounds(rs, root@, 0);
    }
    assert(out@ =~= scan_text(rs, root@, found as nat, target_total as nat, dir@));
    string_from_chars(&out)
}

/// The line that ends the scan, after the check mark: the projects found,
/// the size of their build output, and the errors.
pub open spec fn scan_finish_text(found: nat, errors: nat, target_total: nat) -> Seq<char> {
    " Scan complete: found "@ + decimal(found) + " Cargo project(s), target total "@
        + format_bytes_text(target_total) + ", errors "@ + decimal(errors) + "\n"@
}

/// Builds the line that ends the scan.
pub fn scan_finish_message(found: usize, errors: usize, target_total: u64) -> (r: String)
    ensures
        r@ == scan_finish_text(found as nat, errors as nat, target_total as nat),
{
    let mut out: Vec<char> = Vec::new();
    push_text(&mut out, " Scan complete: found ");
    push_decimal(&mut out, found as u128);
    push_text(&mut out, " Cargo project(s), target total ");
    let total = format_bytes(target_total);
    push_text(&mut out, total.as_str());
    push_text(&mut out, ", errors ");
    push_decimal(&mut out, errors as u128);
    push_text(&mut out, "\n");
    string_from_chars(&out)
}

/// The cleanup progress message after a project is finished: how many are
/// cleaned (or would be) so far and the bytes freed, the project, and its
/// target directory, or a placeholder when that could not be resolved.
pub open spec fn cleanup_progress_text(root: Seq<u8>, report: ReportModel, dry_run: bool, target: Result<Seq<u8>, ErrorModel>) -> Seq<char> {
    let done = if dry_run {
        report.dry_runs.len()
    } else {
        report.cleaned.len()
    };
    let freed = capped(total_size(if dry_run { report.dry_runs } else { report.cleaned }));
    (if dry_run {
        "would clean"@
    } else {
        "cleaned"@
    }) + ": "@ + decimal(done) + "  freed: "@ + format_bytes_text(freed) + "\n  - project: "@
        + display_text(root) + "\n  - target: "@ + match target {
        Ok(t) => display_text(t),
        Err(_) => "<target unresolved>"@,
    }
}

/// Builds the cleanup progress message for a finished project, given where
/// its build output was resolved to go.
pub fn cleanup_progress_message(project: &CargoProject, report: &CleanupReport, dry_run: bool, target: &Result<FsPath, PathError>) -> (r: String)
    ensures
        r@ == cleanup_progress_text(
            project.root@,
            report@,
            dry_run,
            match target {
                Ok(t) => Ok(t@),
                Err(e) => Err(e@),
            },
        ),
{
    let done = if dry_run {
        report.dry_runs.len()
    } else {
        report.cleaned.len()
    };
    let mut out: Vec<char> = Vec::new();
    if dry_run {
        push_text(&mut out, "would clean");
    } else {
        push_text(&mut out, "cleaned");
    }
    push_text(&mut out, ": ");
    push_decimal(&mut out, done as u128);
    push_text(&mut out, "  freed: ");
    let freed = format_bytes(cleaned_size_bytes(report, dry_run));
    push_text(&mut out, freed.as_str());
    push_text(&mut out, "\n  - project: ");
    let shown_root = project.root.display();
    push_text(&mut out, shown_root.as_str());
    push_text(&mut out, "\n  - target: ");
    match target {
        Ok(t) => {
            let shown = t.display();
            push_text(&mut out, shown.as_str());
        },
        Err(_) => {
            push_text(&mut out, "<target unresolved>");
        },
    }
    string_from_chars(&out)
}

} // verus!
