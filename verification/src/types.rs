//! The records that discovery and cleanup produce.

use vstd::prelude::*;

use crate::path::FsPath;

verus! {

/// A Cargo project: the directory holding its manifest, and the manifest.
#[derive(Debug, Clone)]
pub struct CargoProject {
    pub root: FsPath,
    pub manifest: FsPath,
}

/// A Cargo project as values.
pub struct ProjectModel {
    pub root: Seq<u8>,
    pub manifest: Seq<u8>,
}

impl View for CargoProject {
    type V = ProjectModel;

    open spec fn view(&self) -> ProjectModel {
        ProjectModel { root: self.root@, manifest: self.manifest@ }
    }
}

impl CargoProject {
    /// A copy of this project.
    pub fn duplicate(&self) -> (r: CargoProject)
        ensures
            r@ == self@,
    {
        CargoProject { root: self.root.duplicate(), manifest: self.manifest.duplicate() }
    }
}

/// A problem with a path, and what went wrong.
#[derive(Debug, Clone)]
pub struct PathError {
    pub path: FsPath,
    pub message: String,
}

/// A path problem as values.
pub struct ErrorModel {
    pub path: Seq<u8>,
    pub message: Seq<char>,
}

impl View for PathError {
    type V = ErrorModel;

    open spec fn view(&self) -> ErrorModel {
        ErrorModel { path: self.path@, message: self.message@ }
    }
}

/// Records a problem with a path.
pub fn path_error(path: FsPath, message: String) -> (r: PathError)
    ensures
        r@ == (ErrorModel { path: path@, message: message@ }),
{
    PathError { path, message }
}

/// A project whose build output was removed, or would be in a dry run.
#[derive(Debug, Clone)]
pub struct CleanedProject {
    pub root: FsPath,
    pub target: FsPath,
    pub size_bytes: u64,
}

/// A cleaned project as values.
pub struct CleanedModel {
    pub root: Seq<u8>,
    pub target: Seq<u8>,
    pub size_bytes: u64,
}

impl View for CleanedProject {
    type V = CleanedModel;

    open spec fn view(&self) -> CleanedModel {
        CleanedModel { root: self.root@, target: self.target@, size_bytes: self.size_bytes }
    }
}

/// A project left alone by a safety rule, and the rule's reason.
#[derive(Debug, Clone)]
pub struct SkippedProject {
    pub root: FsPath,
    pub reason: String,
}

/// A skipped project as values.
pub struct SkippedModel {
    pub root: Seq<u8>,
    pub reason: Seq<char>,
}

impl View for SkippedProject {
    type V = SkippedModel;

    open spec fn view(&self) -> SkippedModel {
        SkippedModel { root: self.root@, reason: self.reason@ }
    }
}

/// What happened to one project's build output.
#[derive(Debug)]
pub enum CleanupStatus {
    Cleaned(CleanedProject),
    DryRun(CleanedProject),
    MissingTarget,
    UnsafeSkip(SkippedProject),
}

/// A cleanup status as values.
pub enum StatusModel {
    Cleaned(CleanedModel),
    DryRun(CleanedModel),
    MissingTarget,
    UnsafeSkip(SkippedModel),
}

impl View for CleanupStatus {
    type V = StatusModel;

    open spec fn view(&self) -> StatusModel {
        match self {
            CleanupStatus::Cleaned(c) => StatusModel::Cleaned(c@),
            CleanupStatus::DryRun(c) => StatusModel::DryRun(c@),
            CleanupStatus::MissingTarget => StatusModel::MissingTarget,
            CleanupStatus::UnsafeSkip(s) => StatusModel::UnsafeSkip(s@),
        }
    }
}

/// The outcome of cleaning one project, as values.
pub open spec fn outcome_model(o: Result<CleanupStatus, PathError>) -> Result<StatusModel, ErrorModel> {
    match o {
        Ok(s) => Ok(s@),
        Err(e) => Err(e@),
    }
}

/// The projects found by a scan, and the problems met on the way.
#[derive(Debug)]
pub struct DiscoveryResult {
    pub projects: Vec<CargoProject>,
    pub errors: Vec<PathError>,
}

/// The projects of a vector, as values.
pub open spec fn projects_model(v: Seq<CargoProject>) -> Seq<ProjectModel> {
    v.map_values(|p: CargoProject| p@)
}

/// The path problems of a vector, as values.
pub open spec fn errors_model(v: Seq<PathError>) -> Seq<ErrorModel> {
    v.map_values(|e: PathError| e@)
}

/// The cleaned projects of a vector, as values.
pub open spec fn cleaned_model(v: Seq<CleanedProject>) -> Seq<CleanedModel> {
    v.map_values(|c: CleanedProject| c@)
}

/// The skipped projects of a vector, as values.
pub open spec fn skipped_model(v: Seq<SkippedProject>) -> Seq<SkippedModel> {
    v.map_values(|s: SkippedProject| s@)
}

/// What a cleanup did, project by project, sorted by kind.
#[derive(Debug)]
pub struct CleanupReport {
    pub cleaned: Vec<CleanedProject>,
    pub dry_runs: Vec<CleanedProject>,
    pub skipped_missing_target: usize,
    pub skipped_unsafe: Vec<SkippedProject>,
    pub errors: Vec<PathError>,
}

/// A cleanup report as values.
pub struct ReportModel {
    pub cleaned: Seq<CleanedModel>,
    pub dry_runs: Seq<CleanedModel>,
    pub skipped_missing_target: nat,
    pub skipped_unsafe: Seq<SkippedModel>,
    pub errors: Seq<ErrorModel>,
}

impl View for CleanupReport {
    type V = ReportModel;

    open spec fn view(&self) -> ReportModel {
        ReportModel {
            cleaned: cleaned_model(self.cleaned@),
            dry_runs: cleaned_model(self.dry_runs@),
            skipped_missing_target: self.skipped_missing_target as nat,
            skipped_unsafe: skipped_model(self.skipped_unsafe@),
            errors: errors_model(self.errors@),
        }
    }
}

/// The number of projects a report accounts for.
pub open spec fn report_total(r: ReportModel) -> nat {
    r.cleaned.len() + r.dry_runs.len() + r.skipped_missing_target + r.skipped_unsafe.len()
        + r.errors.len()
}

/// The report with one more project's outcome filed under its kind.
pub open spec fn report_with(r: ReportModel, o: Result<StatusModel, ErrorModel>) -> ReportModel {
    match o {
        Ok(StatusModel::Cleaned(c)) => ReportModel { cleaned: r.cleaned.push(c), ..r },
        Ok(StatusModel::DryRun(c)) => ReportModel { dry_runs: r.dry_runs.push(c), ..r },
        Ok(StatusModel::MissingTarget) => ReportModel {
            skipped_missing_target: r.skipped_missing_target + 1,
            ..r
        },
        Ok(StatusModel::UnsafeSkip(s)) => ReportModel { skipped_unsafe: r.skipped_unsafe.push(s), ..r },
        Err(e) => ReportModel { errors: r.errors.push(e), ..r },
    }
}

/// The empty report.
pub open spec fn empty_report() -> ReportModel {
    ReportModel {
        cleaned: seq![],
        dry_runs: seq![],
        skipped_missing_target: 0,
        skipped_unsafe: seq![],
        errors: seq![],
    }
}

/// Each outcome is filed under exactly its own kind: a failure is appended
/// to the errors and to nothing else; a skip by a safety rule to the
/// skipped projects; a missing target counted once; a cleaned (or
/// would-be cleaned) project appended to its list; every other part of
/// the report stays as it was.
pub proof fn lemma_outcome_filed_under_its_kind(r: ReportModel, o: Result<StatusModel, ErrorModel>)
    ensures
        ({
            let n = report_with(r, o);
            &&& (n.errors.len() == r.errors.len() + 1) == (o is Err)
            &&& (n.skipped_unsafe.len() == r.skipped_unsafe.len() + 1) == (o matches Ok(StatusModel::UnsafeSkip(_)))
            &&& (n.skipped_missing_target == r.skipped_missing_target + 1) == (o matches Ok(StatusModel::MissingTarget))
            &&& (n.cleaned.len() == r.cleaned.len() + 1) == (o matches Ok(StatusModel::Cleaned(_)))
            &&& (n.dry_runs.len() == r.dry_runs.len() + 1) == (o matches Ok(StatusModel::DryRun(_)))
            &&& o matches Err(e) ==> n.errors == r.errors.push(e) && n.skipped_unsafe == r.skipped_unsafe
                && n.cleaned == r.cleaned && n.dry_runs == r.dry_runs
                && n.skipped_missing_target == r.skipped_missing_target
            &&& o matches Ok(StatusModel::UnsafeSkip(k)) ==> n.skipped_unsafe == r.skipped_unsafe.push(k)
                && n.errors == r.errors
            &&& o matches Ok(StatusModel::Cleaned(c)) ==> n.cleaned == r.cleaned.push(c) && n.errors == r.errors
            &&& o matches Ok(StatusModel::DryRun(c)) ==> n.dry_runs == r.dry_runs.push(c) && n.errors == r.errors
            &&& o matches Ok(StatusModel::MissingTarget) ==> n.errors == r.errors
                && n.skipped_unsafe == r.skipped_unsafe
        }),
{
}

impl CleanupReport {
    /// A report with nothing in it.
    pub fn new() -> (r: CleanupReport)
        ensures
            r@ == empty_report(),
    {
        let r = CleanupReport {
            cleaned: Vec::new(),
            dry_runs: Vec::new(),
            skipped_missing_target: 0,
            skipped_unsafe: Vec::new(),
            errors: Vec::new(),
        };
        assert(r@.cleaned =~= seq![]);
        assert(r@.dry_runs =~= seq![]);
        assert(r@.skipped_unsafe =~= seq![]);
        assert(r@.errors =~= seq![]);
        r
    }

    /// Files one project's outcome under its kind.
    pub fn record(&mut self, outcome: Result<CleanupStatus, PathError>)
        requires
            old(self).skipped_missing_target < usize::MAX,
        ensures
            final(self)@ == report_with(old(self)@, outcome_model(outcome)),
            report_total(final(self)@) == report_total(old(self)@) + 1,
            outcome matches Err(e) ==> final(self)@.errors == old(self)@.errors.push(e@)
                && final(self)@.skipped_unsafe == old(self)@.skipped_unsafe
                && final(self)@.cleaned == old(self)@.cleaned
                && final(self)@.dry_runs == old(self)@.dry_runs
                && final(self).skipped_missing_target == old(self).skipped_missing_target,
            !(outcome is Err) ==> final(self)@.errors == old(self)@.errors,
    {
        match outcome {
            Ok(CleanupStatus::Cleaned(entry)) => {
                self.cleaned.push(entry);
                assert(self@.cleaned =~= old(self)@.cleaned.push(entry@));
            },
            Ok(CleanupStatus::DryRun(entry)) => {
                self.dry_runs.push(entry);
                assert(self@.dry_runs =~= old(self)@.dry_runs.push(entry@));
            },
            Ok(CleanupStatus::MissingTarget) => {
                self.skipped_missing_target = self.skipped_missing_target + 1;
            },
            Ok(CleanupStatus::UnsafeSkip(skipped)) => {
                self.skipped_unsafe.push(skipped);
                assert(self@.skipped_unsafe =~= old(self)@.skipped_unsafe.push(skipped@));
            },
            Err(error) => {
                self.errors.push(error);
                assert(self@.errors =~= old(self)@.errors.push(error@));
            },
        }
    }
}

/// A `String` holding the text.
pub fn text_string(text: &str) -> (r: String)
    ensures
        r@ == text@,
{
    text.to_owned()
}

} // verus!
