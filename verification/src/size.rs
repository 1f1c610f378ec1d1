//! Sizes in bytes: adding them up and showing them with a binary unit.

use vstd::prelude::*;

use crate::path::{paths_model, FsPath};
use crate::types::{cleaned_model, text_string, CleanedModel, CleanedProject, CleanupReport};
use crate::text::{decimal, push_decimal, push_text, string_from_chars};

verus! {

/// 2^53: below it every integer is exactly a 64-bit float.
pub open spec fn float_exact_limit() -> nat {
    0x20_0000_0000_0000
}

/// The nearest integer to `n / d`, halfway cases going to the even one.
pub open spec fn round_half_even(n: nat, d: nat) -> nat
    recommends
        d > 0,
{
    let q = n / d;
    let r = n % d;
    if 2 * r > d {
        q + 1
    } else if 2 * r < d {
        q
    } else if q % 2 == 1 {
        q + 1
    } else {
        q
    }
}

pub proof fn lemma_doubling_fits(b: nat, d: nat)
    requires
        d > 0,
        b / d >= float_exact_limit(),
    ensures
        2 * d <= b,
{
    assert(d * (b / d) <= b) by {
        vstd::arithmetic::div_mod::lemma_fundamental_div_mod(b as int, d as int);
    }
    assert(2 * d <= d * (b / d)) by (nonlinear_arith)
        requires
            d > 0,
            b / d >= 2,
    ;
}

/// The spacing of 64-bit floats around `b`, searched from `d` upward by
/// doubling.
pub open spec fn spacing_from(b: nat, d: nat) -> nat
    decreases b - d,
{
    if d == 0 || b / d < float_exact_limit() {
        d
    } else {
        proof {
            lemma_doubling_fits(b, d);
        }
        spacing_from(b, 2 * d)
    }
}

/// The smallest power of two `d` with `b / d < 2^53`: the spacing of 64-bit
/// floats near `b`.
pub open spec fn float_spacing(b: nat) -> nat {
    spacing_from(b, 1)
}

/// `b` converted to a 64-bit float (`b as f64`): rounded to the nearest
/// multiple of the float spacing, halfway cases to the even multiple.
pub open spec fn float_value(b: nat) -> nat {
    round_half_even(b, float_spacing(b)) * float_spacing(b)
}

/// The size of one unit: 1024 to the power `k`.
pub open spec fn unit_size(k: nat) -> nat {
    if k == 0 {
        1
    } else if k == 1 {
        0x400
    } else if k == 2 {
        0x10_0000
    } else if k == 3 {
        0x4000_0000
    } else {
        0x100_0000_0000
    }
}

/// The unit a value is shown in: divided by 1024 while it is at least 1024,
/// at most four times.
pub open spec fn unit_index(v: nat) -> nat {
    if v >= unit_size(4) {
        4
    } else if v >= unit_size(3) {
        3
    } else if v >= unit_size(2) {
        2
    } else if v >= unit_size(1) {
        1
    } else {
        0
    }
}

/// The name of unit `k`.
pub open spec fn unit_name(k: nat) -> Seq<char> {
    if k == 0 {
        "B"@
    } else if k == 1 {
        "KB"@
    } else if k == 2 {
        "MB"@
    } else if k == 3 {
        "GB"@
    } else {
        "TB"@
    }
}

/// A size as shown to the user: whole bytes below 1 KB, otherwise the
/// value in the largest unit up to TB that keeps it at least 1, with one
/// decimal, rounded as `{:.1}` rounds the float.
pub open spec fn format_bytes_text(bytes: nat) -> Seq<char> {
    let v = float_value(bytes);
    let k = unit_index(v);
    if k == 0 {
        decimal(bytes) + " "@ + unit_name(0)
    } else {
        let t = round_half_even(v * 10, unit_size(k));
        decimal(t / 10) + "."@ + decimal(t % 10) + " "@ + unit_name(k)
    }
}

fn round_half_even_exec(n: u128, d: u128) -> (r: u128)
    requires
        d > 0,
        n < 0x1_0000_0000_0000_0000_0000,
    ensures
        r == round_half_even(n as nat, d as nat),
{
    let q = n / d;
    let rem = n % d;
    proof {
        assert(q <= n) by (nonlinear_arith)
            requires
                d > 0,
                q == n / d,
        ;
    }
    assert(rem < d);
    if rem > d - rem {
        q + 1
    } else if rem < d - rem {
        q
    } else if q % 2 == 1 {
        q + 1
    } else {
        q
    }
}

proof fn lemma_spacing_bound(b: nat, d: nat)
    requires
        d > 0,
        b < 0x1_0000_0000_0000_0000,
        b / d >= float_exact_limit(),
    ensures
        d < 0x800,
{
    assert(d * float_exact_limit() <= b) by (nonlinear_arith)
        requires
            d > 0,
            b / d >= float_exact_limit(),
    {
        assert(d * (b / d) <= b) by {
            vstd::arithmetic::div_mod::lemma_fundamental_div_mod(b as int, d as int);
        }
    }
}

/// `bytes as f64`, as an exact integer.
fn float_value_exec(bytes: u64) -> (r: u128)
    ensures
        r == float_value(bytes as nat),
        r <= 0x1_0000_0000_0000_1000,
{
    let b = bytes as u128;
    let mut d: u128 = 1;
    while b / d >= 0x20_0000_0000_0000
        invariant
            0 < d < 0x1000,
            b == bytes,
            float_spacing(b as nat) == spacing_from(b as nat, d as nat),
        decreases b - d,
    {
        proof {
            lemma_spacing_bound(b as nat, d as nat);
            lemma_doubling_fits(b as nat, d as nat);
        }
        d = 2 * d;
    }
    let q = round_half_even_exec(b, d);
    proof {
        assert(q * d <= b + d) by (nonlinear_arith)
            requires
                d > 0,
                q <= b / d + 1,
        {
            assert(d * (b / d) <= b) by {
                vstd::arithmetic::div_mod::lemma_fundamental_div_mod(b as int, d as int);
            }
        }
    }
    q * d
}


/// Shows a byte count with a binary unit, as the progress and summary lines
/// do: "512 B", "1.5 KB", "3.0 GB".
pub fn format_bytes(bytes: u64) -> (r: String)
    ensures
        r@ == format_bytes_text(bytes as nat),
{
    let v = float_value_exec(bytes);
    let mut out: Vec<char> = Vec::new();
    if v < 0x400 {
        push_decimal(&mut out, bytes as u128);
        push_text(&mut out, " ");
        push_text(&mut out, "B");
    } else {
        let unit: u128 = if v >= 0x100_0000_0000 {
            0x100_0000_0000
        } else if v >= 0x4000_0000 {
            0x4000_0000
        } else if v >= 0x10_0000 {
            0x10_0000
        } else {
            0x400
        };
        let t = round_half_even_exec(v * 10, unit);
        push_decimal(&mut out, t / 10);
        push_text(&mut out, ".");
        push_decimal(&mut out, t % 10);
        push_text(&mut out, " ");
        if v >= 0x100_0000_0000 {
            push_text(&mut out, "TB");
        } else if v >= 0x4000_0000 {
            push_text(&mut out, "GB");
        } else if v >= 0x10_0000 {
            push_text(&mut out, "MB");
        } else {
            push_text(&mut out, "KB");
        }
    }
    string_from_chars(&out)
}


/// The total of the sizes.
pub open spec fn total_size(entries: Seq<CleanedModel>) -> nat
    decreases entries.len(),
{
    if entries.len() == 0 {
        0
    } else {
        total_size(entries.drop_last()) + entries.last().size_bytes as nat
    }
}

/// A total that stops at the largest `u64`.
pub open spec fn capped(n: nat) -> nat {
    if n > u64::MAX {
        u64::MAX as nat
    } else {
        n
    }
}

/// The sizes added up, stopping at the largest `u64`.
pub fn saturating_sum(entries: &Vec<CleanedProject>) -> (r: u64)
    ensures
        r == capped(total_size(cleaned_model(entries@))),
{
    let ghost m = cleaned_model(entries@);
    let mut total: u64 = 0;
    let mut i: usize = 0;
    while i < entries.len()
        invariant
            i <= entries.len(),
            m == cleaned_model(entries@),
            total == capped(total_size(m.take(i as int))),
        decreases entries.len() - i,
    {
        assert(m.take(i + 1).drop_last() =~= m.take(i as int));
        assert(m.take(i + 1).last() == entries@[i as int]@);
        total = total.saturating_add(entries[i].size_bytes);
        i = i + 1;
    }
    assert(m.take(entries.len() as int) =~= m);
    total
}

/// The bytes freed: the sizes of the removed directories, or in a dry run
/// of those that would be removed, added up without going past the
/// largest `u64`.
pub fn cleaned_size_bytes(report: &CleanupReport, dry_run: bool) -> (r: u64)
    ensures
        r == capped(total_size(if dry_run { report@.dry_runs } else { report@.cleaned })),
{
    if dry_run {
        saturating_sum(&report.dry_runs)
    } else {
        saturating_sum(&report.cleaned)
    }
}


/// What a directory entry is, as the size walk sees it (links not
/// followed).
pub enum SizeEntryKind {
    Directory,
    File,
    Other,
}

/// A walk that adds up the sizes of the regular files under a directory.
pub struct SizeWalk {
    /// Directories still to list; the last is next.
    pub stack: Vec<FsPath>,
    /// The sizes so far, stopping at the largest `u64`.
    pub total: u64,
}

/// Starts adding up the sizes of the files under `path`.
pub fn directory_size_bytes(path: FsPath) -> (r: SizeWalk)
    ensures
        paths_model(r.stack@) == seq![path@],
        r.total == 0,
        r@ == walk_from(path@, seq![]),
{
    let mut stack: Vec<FsPath> = Vec::new();
    stack.push(path);
    assert(paths_model(stack@) =~= seq![path@]);
    SizeWalk { stack, total: 0 }
}

impl SizeWalk {
    /// The next directory to list, if any is left.
    pub fn next_dir(&mut self) -> (r: Option<FsPath>)
        ensures
            old(self).stack.len() == 0 ==> r is None && final(self).stack@ == old(self).stack@,
            old(self).stack.len() > 0 ==> (r matches Some(p) && p@ == paths_model(old(self).stack@).last()
                && paths_model(final(self).stack@) == paths_model(old(self).stack@).drop_last()),
            final(self).total == old(self).total,
            final(self)@ == walk_step(old(self)@, WalkEvent::NextDir),
    {
        let r = self.stack.pop();
        proof {
            if old(self).stack.len() > 0 {
                assert(paths_model(self.stack@) =~= paths_model(old(self).stack@).drop_last());
            }
        }
        r
    }

    /// Takes in one entry of the directory being listed: a directory is
    /// listed later, a regular file's size is added (stopping at the
    /// largest `u64`), anything else is ignored.
    pub fn visit(&mut self, path: FsPath, kind: SizeEntryKind, len: u64)
        ensures
            match kind {
                SizeEntryKind::Directory => paths_model(final(self).stack@) == paths_model(
                    old(self).stack@,
                ).push(path@) && final(self).total == old(self).total,
                SizeEntryKind::File => final(self).stack@ == old(self).stack@ && final(self).total
                    == capped((old(self).total + len) as nat),
                SizeEntryKind::Other => final(self).stack@ == old(self).stack@ && final(self).total
                    == old(self).total,
            },
            final(self)@ == walk_step(old(self)@, WalkEvent::Visit(path@, kind, len)),
    {
        match kind {
            SizeEntryKind::Directory => {
                let ghost before = paths_model(self.stack@);
                self.stack.push(path);
                assert(paths_model(self.stack@) =~= before.push(path@));
            },
            SizeEntryKind::File => {
                self.total = self.total.saturating_add(len);
            },
            SizeEntryKind::Other => {},
        }
    }
}

/// A size walk as values: the directories still to list, and the total.
pub struct WalkModel {
    pub stack: Seq<Seq<u8>>,
    pub total: nat,
}

impl View for SizeWalk {
    type V = WalkModel;

    open spec fn view(&self) -> WalkModel {
        WalkModel { stack: paths_model(self.stack@), total: self.total as nat }
    }
}

/// One step of a size walk: take the next directory to list, or take in
/// one entry of the directory being listed.
pub enum WalkEvent {
    NextDir,
    Visit(Seq<u8>, SizeEntryKind, u64),
}

/// The walk after a step: the next directory leaves the stack; a directory
/// entry joins it; a regular file's size is added, stopping at the largest
/// `u64`; anything else changes nothing.
pub open spec fn walk_step(m: WalkModel, e: WalkEvent) -> WalkModel {
    match e {
        WalkEvent::NextDir => if m.stack.len() > 0 {
            WalkModel { stack: m.stack.drop_last(), ..m }
        } else {
            m
        },
        WalkEvent::Visit(p, SizeEntryKind::Directory, _) => WalkModel { stack: m.stack.push(p), ..m },
        WalkEvent::Visit(_, SizeEntryKind::File, len) => WalkModel { total: capped(m.total + len as nat), ..m },
        WalkEvent::Visit(_, SizeEntryKind::Other, _) => m,
    }
}

/// The walk of `path` after a sequence of steps.
pub open spec fn walk_from(path: Seq<u8>, events: Seq<WalkEvent>) -> WalkModel
    decreases events.len(),
{
    if events.len() == 0 {
        WalkModel { stack: seq![path], total: 0 }
    } else {
        walk_step(walk_from(path, events.drop_last()), events.last())
    }
}

/// The sizes of the regular files among the steps, added up.
pub open spec fn file_sizes(events: Seq<WalkEvent>) -> nat
    decreases events.len(),
{
    if events.len() == 0 {
        0
    } else {
        file_sizes(events.drop_last()) + match events.last() {
            WalkEvent::Visit(_, SizeEntryKind::File, len) => len as nat,
            _ => 0,
        }
    }
}

/// Stopping at the largest `u64` at each addition is the same as stopping
/// once at the end.
proof fn lemma_capped_add(a: nat, b: nat)
    ensures
        capped(capped(a) + b) == capped(a + b),
{
}

/// The size of a directory is the sizes of all regular files the walk
/// visited, added up and stopping at the largest `u64`: whatever the steps
/// and in whatever order, the walk's total is `min(u64::MAX, sum)`.
pub proof fn lemma_walk_total(path: Seq<u8>, events: Seq<WalkEvent>)
    ensures
        walk_from(path, events).total == capped(file_sizes(events)),
    decreases events.len(),
{
    if events.len() > 0 {
        lemma_walk_total(path, events.drop_last());
        if let WalkEvent::Visit(_, SizeEntryKind::File, len) = events.last() {
            lemma_capped_add(file_sizes(events.drop_last()), len as nat);
        }
    }
}

/// The line that ends the cleanup progress: how many projects were
/// processed, how many cleaned (or would be), the bytes freed, and the
/// errors.
pub open spec fn cleanup_finish_text(report: crate::types::ReportModel, dry_run: bool) -> Seq<char> {
    let done = if dry_run {
        report.dry_runs.len()
    } else {
        report.cleaned.len()
    };
    let freed = capped(total_size(if dry_run { report.dry_runs } else { report.cleaned }));
    (if dry_run {
        "Evaluation"@
    } else {
        "Cleanup"@
    }) + " complete:\nprocessed "@ + decimal(crate::types::report_total(report)) + ", cleaned "@ + decimal(done)
        + ", freed "@ + format_bytes_text(freed) + ", errors "@ + decimal(report.errors.len()) + "\n"@
}

/// Builds the line that ends the cleanup progress.
pub fn cleanup_finish_message(report: &CleanupReport, dry_run: bool) -> (r: String)
    ensures
        r@ == cleanup_finish_text(report@, dry_run),
{
    let processed: u128 = report.cleaned.len() as u128 + report.dry_runs.len() as u128
        + report.skipped_missing_target as u128 + report.skipped_unsafe.len() as u128
        + report.errors.len() as u128;
    let done = if dry_run {
        report.dry_runs.len()
    } else {
        report.cleaned.len()
    };
    let freed = format_bytes(cleaned_size_bytes(report, dry_run));
    let mut out: Vec<char> = Vec::new();
    if dry_run {
        push_text(&mut out, "Evaluation");
    } else {
        push_text(&mut out, "Cleanup");
    }
    push_text(&mut out, " complete:\nprocessed ");
    push_decimal(&mut out, processed);
    push_text(&mut out, ", cleaned ");
    push_decimal(&mut out, done as u128);
    push_text(&mut out, ", freed ");
    push_text(&mut out, freed.as_str());
    push_text(&mut out, ", errors ");
    push_decimal(&mut out, report.errors.len() as u128);
    push_text(&mut out, "\n");
    string_from_chars(&out)
}

/// The closing summary, line by line: projects found, cleaned (or would
/// be) with the bytes freed, skipped for a missing target, skipped by the
/// safety rules, and errors of the scan and the cleanup together.
pub open spec fn summary_text(found: nat, scan_errors: nat, report: crate::types::ReportModel, dry_run: bool) -> Seq<Seq<char>> {
    let done = if dry_run {
        report.dry_runs.len()
    } else {
        report.cleaned.len()
    };
    let freed = capped(total_size(if dry_run { report.dry_runs } else { report.cleaned }));
    seq![
        "Summary:"@,
        "  Found: "@ + decimal(found) + " projects"@,
        (if dry_run { "  Would clean: "@ } else { "  Cleaned: "@ }) + decimal(done) + " ("@
            + format_bytes_text(freed) + ")"@,
        "  Skipped (missing target): "@ + decimal(report.skipped_missing_target),
        "  Skipped (safety rules): "@ + decimal(report.skipped_unsafe.len()),
        "  Errors: "@ + decimal(scan_errors + report.errors.len()),
    ]
}

/// The strings of a vector, as values.
pub open spec fn strings_model(v: Seq<String>) -> Seq<Seq<char>> {
    v.map_values(|s: String| s@)
}

fn line_with_count(lead: &str, n: u128, tail: &str) -> (r: String)
    ensures
        r@ == lead@ + decimal(n as nat) + tail@,
{
    let mut out: Vec<char> = Vec::new();
    push_text(&mut out, lead);
    push_decimal(&mut out, n);
    push_text(&mut out, tail);
    string_from_chars(&out)
}

/// Builds the closing summary lines.
pub fn summary_lines(found: usize, scan_errors: usize, report: &CleanupReport, dry_run: bool) -> (r: Vec<String>)
    ensures
        strings_model(r@) == summary_text(found as nat, scan_errors as nat, report@, dry_run),
{
    let done = if dry_run {
        report.dry_runs.len()
    } else {
        report.cleaned.len()
    };
    let freed = format_bytes(cleaned_size_bytes(report, dry_run));
    let mut cleaned_line: Vec<char> = Vec::new();
    if dry_run {
        push_text(&mut cleaned_line, "  Would clean: ");
    } else {
        push_text(&mut cleaned_line, "  Cleaned: ");
    }
    push_decimal(&mut cleaned_line, done as u128);
    push_text(&mut cleaned_line, " (");
    push_text(&mut cleaned_line, freed.as_str());
    push_text(&mut cleaned_line, ")");
    let mut lines: Vec<String> = Vec::new();
    lines.push(text_string("Summary:"));
    lines.push(line_with_count("  Found: ", found as u128, " projects"));
    lines.push(string_from_chars(&cleaned_line));
    lines.push(line_with_count("  Skipped (missing target): ", report.skipped_missing_target as u128, ""));
    lines.push(line_with_count("  Skipped (safety rules): ", report.skipped_unsafe.len() as u128, ""));
    lines.push(line_with_count("  Errors: ", scan_errors as u128 + report.errors.len() as u128, ""));
    assert(""@ =~= Seq::<char>::empty()) by {
        reveal_strlit("");
    }
    assert(strings_model(lines@) =~= summary_text(found as nat, scan_errors as nat, report@, dry_run));
    lines
}

/// The exit status: 0 when neither the scan nor the cleanup met an error,
/// else 1.
pub fn exit_status(scan_errors: usize, report: &CleanupReport) -> (r: u8)
    ensures
        r == (if scan_errors == 0 && report.errors.len() == 0 { 0u8 } else { 1u8 }),
{
    if scan_errors == 0 && report.errors.len() == 0 {
        0
    } else {
        1
    }
}

} // verus!
