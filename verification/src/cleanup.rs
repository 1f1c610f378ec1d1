//! Cleaning one project's build output: the checks that must all pass, in
//! order, before the directory is removed; and the report they add up to.

use vstd::prelude::*;

use crate::path::{display_text, path_starts_with, same_path, FsPath};
use crate::text::{chars_of, push_text, string_from_chars};
use crate::types::{
    path_error, text_string, CargoProject, CleanedModel, CleanedProject, CleanupReport,
    CleanupStatus, ErrorModel, PathError, ProjectModel, SkippedModel, SkippedProject, StatusModel,
    outcome_model, report_total, report_with, empty_report, ReportModel, projects_model,
};

verus! {

/// What `symlink_metadata` found at the target path.
pub enum TargetKind {
    /// Nothing is there.
    Missing,
    /// It could not be inspected; the error's text.
    Unreadable(String),
    /// A symbolic link.
    Symlink,
    /// Something other than a directory.
    NotDirectory,
    /// A directory.
    Directory,
}

/// What was found at the target, as values.
pub enum KindModel {
    Missing,
    Unreadable(Seq<char>),
    Symlink,
    NotDirectory,
    Directory,
}

impl View for TargetKind {
    type V = KindModel;

    open spec fn view(&self) -> KindModel {
        match self {
            TargetKind::Missing => KindModel::Missing,
            TargetKind::Unreadable(m) => KindModel::Unreadable(m@),
            TargetKind::Symlink => KindModel::Symlink,
            TargetKind::NotDirectory => KindModel::NotDirectory,
            TargetKind::Directory => KindModel::Directory,
        }
    }
}

/// Whether a target found to be of this kind has a size worth adding up:
/// only real directories do.
pub fn is_measurable(kind: &TargetKind) -> (r: bool)
    ensures
        r == (kind@ is Directory),
{
    match kind {
        TargetKind::Directory => true,
        _ => false,
    }
}

/// Where the cleanup of one project stands: the step to take next, with
/// what it works on, or the outcome.
pub enum Stage {
    /// Find where the project's build output is configured to go.
    ResolveTarget,
    /// Inspect the target path without following links.
    Inspect(FsPath),
    /// Resolve the target path to its canonical form.
    Canonicalize(FsPath),
    /// Read the manifest again; holds the canonical target.
    CheckManifest(FsPath),
    /// Add up the size of the canonical target.
    Measure(FsPath),
    /// Remove the target directory.
    Remove(CleanedProject),
    /// The outcome.
    Done(Result<CleanupStatus, PathError>),
}

/// A stage as values.
pub enum StageModel {
    ResolveTarget,
    Inspect(Seq<u8>),
    Canonicalize(Seq<u8>),
    CheckManifest(Seq<u8>),
    Measure(Seq<u8>),
    Remove(CleanedModel),
    Done(Result<StatusModel, ErrorModel>),
}

impl View for Stage {
    type V = StageModel;

    open spec fn view(&self) -> StageModel {
        match self {
            Stage::ResolveTarget => StageModel::ResolveTarget,
            Stage::Inspect(t) => StageModel::Inspect(t@),
            Stage::Canonicalize(t) => StageModel::Canonicalize(t@),
            Stage::CheckManifest(t) => StageModel::CheckManifest(t@),
            Stage::Measure(t) => StageModel::Measure(t@),
            Stage::Remove(c) => StageModel::Remove(c@),
            Stage::Done(o) => StageModel::Done(outcome_model(*o)),
        }
    }
}

/// What a step found.
pub enum CleanupEvent {
    /// Where the build output goes, or why that could not be found.
    TargetResolved(Result<FsPath, PathError>),
    /// What is at the target path.
    TargetInspected(TargetKind),
    /// The canonical target, or the error's text.
    TargetCanonicalized(Result<FsPath, String>),
    /// Whether the manifest still looks like one, or the error's text.
    ManifestChecked(Result<bool, String>),
    /// The size of the target, or the error's text.
    TargetMeasured(Result<u64, String>),
    /// Whether the removal worked, or the error's text.
    TargetRemoved(Result<(), String>),
}

/// What a step found, as values.
pub enum EventModel {
    TargetResolved(Result<Seq<u8>, ErrorModel>),
    TargetInspected(KindModel),
    TargetCanonicalized(Result<Seq<u8>, Seq<char>>),
    ManifestChecked(Result<bool, Seq<char>>),
    TargetMeasured(Result<u64, Seq<char>>),
    TargetRemoved(Result<(), Seq<char>>),
}

impl View for CleanupEvent {
    type V = EventModel;

    open spec fn view(&self) -> EventModel {
        match self {
            CleanupEvent::TargetResolved(r) => EventModel::TargetResolved(
                match r {
                    Ok(t) => Ok(t@),
                    Err(e) => Err(e@),
                },
            ),
            CleanupEvent::TargetInspected(k) => EventModel::TargetInspected(k@),
            CleanupEvent::TargetCanonicalized(r) => EventModel::TargetCanonicalized(
                match r {
                    Ok(t) => Ok(t@),
                    Err(m) => Err(m@),
                },
            ),
            CleanupEvent::ManifestChecked(r) => EventModel::ManifestChecked(
                match r {
                    Ok(b) => Ok(*b),
                    Err(m) => Err(m@),
                },
            ),
            CleanupEvent::TargetMeasured(r) => EventModel::TargetMeasured(
                match r {
                    Ok(n) => Ok(*n),
                    Err(m) => Err(m@),
                },
            ),
            CleanupEvent::TargetRemoved(r) => EventModel::TargetRemoved(
                match r {
                    Ok(u) => Ok(*u),
                    Err(m) => Err(m@),
                },
            ),
        }
    }
}

/// A message about a path: the lead text, the path as displayed, ": ",
/// and the error's text.
pub open spec fn path_message(lead: Seq<char>, path: Seq<u8>, detail: Seq<char>) -> Seq<char> {
    lead + display_text(path) + ": "@ + detail
}

/// The project was left alone for this reason.
pub open spec fn skipped(p: ProjectModel, reason: Seq<char>) -> StageModel {
    StageModel::Done(Ok(StatusModel::UnsafeSkip(SkippedModel { root: p.root, reason })))
}

/// The project failed with this message.
pub open spec fn failed(p: ProjectModel, message: Seq<char>) -> StageModel {
    StageModel::Done(Err(ErrorModel { path: p.root, message }))
}

/// The stage after an event. The target must be a directory that is not a
/// link, whose canonical form lies strictly inside the project root; the
/// manifest must still look like one; then the target is measured, and
/// removed unless this is a dry run. An event that does not belong to the
/// current stage changes nothing.
pub open spec fn next_stage(p: ProjectModel, dry_run: bool, s: StageModel, e: EventModel) -> StageModel {
    match (s, e) {
        (StageModel::ResolveTarget, EventModel::TargetResolved(r)) => match r {
            Ok(t) => StageModel::Inspect(t),
            Err(err) => StageModel::Done(Err(err)),
        },
        (StageModel::Inspect(t), EventModel::TargetInspected(k)) => match k {
            KindModel::Missing => StageModel::Done(Ok(StatusModel::MissingTarget)),
            KindModel::Unreadable(m) => failed(p, path_message("failed to inspect "@, t, m)),
            KindModel::Symlink => skipped(p, "target is a symlink and was left untouched"@),
            KindModel::NotDirectory => skipped(p, "target exists but is not a directory"@),
            KindModel::Directory => StageModel::Canonicalize(t),
        },
        (StageModel::Canonicalize(t), EventModel::TargetCanonicalized(r)) => match r {
            Err(m) => failed(p, path_message("failed to resolve "@, t, m)),
            Ok(c) => if same_path(c, p.root) {
                skipped(p, "resolved target directory is the Cargo project root"@)
            } else if !path_starts_with(c, p.root) {
                skipped(p, "configured target-dir resolves outside the Cargo project root"@)
            } else {
                StageModel::CheckManifest(c)
            },
        },
        (StageModel::CheckManifest(c), EventModel::ManifestChecked(r)) => match r {
            Ok(true) => StageModel::Measure(c),
            Ok(false) => skipped(p, "Cargo.toml no longer looks like a Cargo manifest"@),
            Err(m) => skipped(p, "failed to re-read Cargo.toml before cleanup: "@ + m),
        },
        (StageModel::Measure(c), EventModel::TargetMeasured(r)) => match r {
            Err(m) => failed(p, path_message("failed to calculate size of "@, c, m)),
            Ok(n) => {
                let entry = CleanedModel { root: p.root, target: c, size_bytes: n };
                if dry_run {
                    StageModel::Done(Ok(StatusModel::DryRun(entry)))
                } else {
                    StageModel::Remove(entry)
                }
            },
        },
        (StageModel::Remove(entry), EventModel::TargetRemoved(r)) => match r {
            Ok(_) => StageModel::Done(Ok(StatusModel::Cleaned(entry))),
            Err(m) => failed(p, path_message("failed to delete "@, entry.target, m)),
        },
        _ => s,
    }
}


/// The stage reached from the start by a sequence of events.
pub open spec fn run_events(p: ProjectModel, dry_run: bool, events: Seq<EventModel>) -> StageModel
    decreases events.len(),
{
    if events.len() == 0 {
        StageModel::ResolveTarget
    } else {
        next_stage(p, dry_run, run_events(p, dry_run, events.drop_last()), events.last())
    }
}

/// The path lies strictly inside the root: below it, and not the root itself.
pub open spec fn strictly_inside(c: Seq<u8>, root: Seq<u8>) -> bool {
    !same_path(c, root) && path_starts_with(c, root)
}

/// Among the events, a removal succeeded.
pub open spec fn removal_succeeded(events: Seq<EventModel>) -> bool {
    exists|i: int| 0 <= i < events.len() && #[trigger] events[i] matches EventModel::TargetRemoved(Ok(_))
}

/// What must have happened for a project to be at this stage: each step
/// that let the cleanup go on was seen, with the values the stage holds.
pub open spec fn checks_behind(p: ProjectModel, s: StageModel, events: Seq<EventModel>) -> bool {
    let dir = EventModel::TargetInspected(KindModel::Directory);
    let kept = EventModel::ManifestChecked(Ok(true));
    match s {
        StageModel::Canonicalize(_) => events.contains(dir),
        StageModel::CheckManifest(c) => events.contains(dir) && events.contains(
            EventModel::TargetCanonicalized(Ok(c)),
        ) && strictly_inside(c, p.root),
        StageModel::Measure(c) => events.contains(dir) && events.contains(
            EventModel::TargetCanonicalized(Ok(c)),
        ) && strictly_inside(c, p.root) && events.contains(kept),
        StageModel::Remove(e) => e.root == p.root && events.contains(dir) && events.contains(
            EventModel::TargetCanonicalized(Ok(e.target)),
        ) && strictly_inside(e.target, p.root) && events.contains(kept) && events.contains(
            EventModel::TargetMeasured(Ok(e.size_bytes)),
        ),
        StageModel::Done(Ok(StatusModel::DryRun(e))) => e.root == p.root && events.contains(dir)
            && events.contains(EventModel::TargetCanonicalized(Ok(e.target))) && strictly_inside(
            e.target,
            p.root,
        ) && events.contains(kept) && events.contains(EventModel::TargetMeasured(Ok(e.size_bytes))),
        StageModel::Done(Ok(StatusModel::Cleaned(e))) => e.root == p.root && events.contains(dir)
            && events.contains(EventModel::TargetCanonicalized(Ok(e.target))) && strictly_inside(
            e.target,
            p.root,
        ) && events.contains(kept) && events.contains(EventModel::TargetMeasured(Ok(e.size_bytes)))
            && removal_succeeded(events),
        _ => true,
    }
}

proof fn lemma_contains_push(events: Seq<EventModel>, x: EventModel, last: EventModel)
    requires
        events.contains(x),
    ensures
        events.push(last).contains(x),
{
    let i = choose|i: int| 0 <= i < events.len() && events[i] == x;
    assert(events.push(last)[i] == x);
}

proof fn lemma_contains_last(events: Seq<EventModel>, last: EventModel)
    ensures
        events.push(last).contains(last),
{
    assert(events.push(last)[events.len() as int] == last);
}

/// A build directory is removed only after every safety check passed: a
/// project reaches the removal step, or is reported cleaned (or, in a dry
/// run, as would-be cleaned), only if its target was found to be a real
/// directory and not a link, its canonical form lies strictly inside the
/// project root, the manifest still looked like a Cargo manifest, and the
/// size was measured; a cleaned project also saw the removal succeed. The
/// entry names the project root and the canonical target.
pub proof fn lemma_removal_only_after_checks(p: ProjectModel, dry_run: bool, events: Seq<EventModel>)
    ensures
        checks_behind(p, run_events(p, dry_run, events), events),
    decreases events.len(),
{
    if events.len() > 0 {
        let prefix = events.drop_last();
        let last = events.last();
        assert(events =~= prefix.push(last));
        lemma_removal_only_after_checks(p, dry_run, prefix);
        let before = run_events(p, dry_run, prefix);
        let dir = EventModel::TargetInspected(KindModel::Directory);
        let kept = EventModel::ManifestChecked(Ok(true));
        lemma_contains_last(prefix, last);
        assert forall|x: EventModel| prefix.contains(x) implies events.contains(x) by {
            lemma_contains_push(prefix, x, last);
        }
        assert(events.contains(last));
        match before {
            StageModel::Measure(c) => {
                assert(events.contains(EventModel::TargetCanonicalized(Ok(c))));
                assert(events.contains(kept));
                assert(events.contains(dir));
            },
            StageModel::Remove(e) => {
                assert(events.contains(EventModel::TargetCanonicalized(Ok(e.target))));
                assert(events.contains(EventModel::TargetMeasured(Ok(e.size_bytes))));
                assert(events.contains(kept));
                assert(events.contains(dir));
                if last matches EventModel::TargetRemoved(Ok(_)) {
                    assert(events[events.len() - 1] matches EventModel::TargetRemoved(Ok(_)));
                }
            },
            StageModel::CheckManifest(c) => {
                assert(events.contains(EventModel::TargetCanonicalized(Ok(c))));
                assert(events.contains(dir));
            },
            StageModel::Canonicalize(_) => {
                assert(events.contains(dir));
            },
            StageModel::Done(Ok(StatusModel::DryRun(e))) => {
                assert(events.contains(EventModel::TargetCanonicalized(Ok(e.target))));
                assert(events.contains(EventModel::TargetMeasured(Ok(e.size_bytes))));
                assert(events.contains(kept));
                assert(events.contains(dir));
            },
            StageModel::Done(Ok(StatusModel::Cleaned(e))) => {
                assert(events.contains(EventModel::TargetCanonicalized(Ok(e.target))));
                assert(events.contains(EventModel::TargetMeasured(Ok(e.size_bytes))));
                let i = choose|i: int| 0 <= i < prefix.len() && #[trigger] prefix[i] matches EventModel::TargetRemoved(Ok(_));
                assert(events[i] == prefix[i]);
                assert(events.contains(kept));
                assert(events.contains(dir));
            },
            _ => {},
        }
    }
}

/// A project whose target could not be resolved ends with that error as
/// its outcome: the failure is neither dropped nor turned into a skip.
pub proof fn lemma_resolution_failure_is_outcome(p: ProjectModel, dry_run: bool, e: ErrorModel)
    ensures
        next_stage(p, dry_run, StageModel::ResolveTarget, EventModel::TargetResolved(Err(e)))
            == StageModel::Done(Err::<StatusModel, ErrorModel>(e)),
{
}

/// Among the events, a target was resolved.
pub open spec fn target_resolved(events: Seq<EventModel>) -> bool {
    exists|i: int| 0 <= i < events.len() && #[trigger] events[i] matches EventModel::TargetResolved(Ok(_))
}

proof fn lemma_inspect_after_resolution(p: ProjectModel, dry_run: bool, events: Seq<EventModel>)
    ensures
        run_events(p, dry_run, events) is Inspect ==> target_resolved(events),
    decreases events.len(),
{
    if events.len() > 0 {
        let prefix = events.drop_last();
        lemma_inspect_after_resolution(p, dry_run, prefix);
        if run_events(p, dry_run, events) is Inspect {
            if target_resolved(prefix) {
                let i = choose|i: int| 0 <= i < prefix.len() && #[trigger] prefix[i] matches EventModel::TargetResolved(Ok(_));
                assert(events[i] == prefix[i]);
            } else {
                assert(events[events.len() - 1] matches EventModel::TargetResolved(Ok(_)));
            }
        }
    }
}

/// A project is counted as missing its target only after its target was
/// resolved and then found missing: a failure before that (such as a
/// config that cannot be read) never ends as a missing target.
pub proof fn lemma_missing_target_only_after_inspection(p: ProjectModel, dry_run: bool, events: Seq<EventModel>)
    ensures
        run_events(p, dry_run, events) == StageModel::Done(Ok::<StatusModel, ErrorModel>(StatusModel::MissingTarget))
            ==> target_resolved(events) && events.contains(EventModel::TargetInspected(KindModel::Missing)),
    decreases events.len(),
{
    if events.len() > 0 {
        let prefix = events.drop_last();
        let last = events.last();
        lemma_missing_target_only_after_inspection(p, dry_run, prefix);
        lemma_inspect_after_resolution(p, dry_run, prefix);
        let before = run_events(p, dry_run, prefix);
        if run_events(p, dry_run, events) == StageModel::Done(Ok::<StatusModel, ErrorModel>(StatusModel::MissingTarget)) {
            assert(events[events.len() - 1] == last);
            if before == StageModel::Done(Ok::<StatusModel, ErrorModel>(StatusModel::MissingTarget)) {
                let i = choose|i: int| 0 <= i < prefix.len() && #[trigger] prefix[i] matches EventModel::TargetResolved(Ok(_));
                assert(events[i] == prefix[i]);
                let j = choose|j: int| 0 <= j < prefix.len() && prefix[j] == EventModel::TargetInspected(KindModel::Missing);
                assert(events[j] == prefix[j]);
            } else {
                assert(before is Inspect);
                assert(last == EventModel::TargetInspected(KindModel::Missing));
                let i = choose|i: int| 0 <= i < prefix.len() && #[trigger] prefix[i] matches EventModel::TargetResolved(Ok(_));
                assert(events[i] == prefix[i]);
            }
        }
    }
}

/// A dry run removes nothing: whatever the steps find, a dry run never
/// reaches the removal step and never reports a project as cleaned.
pub proof fn lemma_dry_run_removes_nothing(p: ProjectModel, events: Seq<EventModel>)
    ensures
        !(run_events(p, true, events) is Remove),
        !(run_events(p, true, events) matches StageModel::Done(Ok(StatusModel::Cleaned(_)))),
    decreases events.len(),
{
    if events.len() > 0 {
        lemma_dry_run_removes_nothing(p, events.drop_last());
    }
}

/// Builds a message about a path.
fn path_message_string(lead: &str, path: &FsPath, detail: &String) -> (r: String)
    ensures
        r@ == path_message(lead@, path@, detail@),
{
    let mut out: Vec<char> = Vec::new();
    push_text(&mut out, lead);
    let shown = path.display();
    push_text(&mut out, shown.as_str());
    push_text(&mut out, ": ");
    push_text(&mut out, detail.as_str());
    assert(out@ =~= path_message(lead@, path@, detail@));
    string_from_chars(&out)
}

/// The cleanup of one project.
pub struct ProjectCleanup {
    pub project: CargoProject,
    pub dry_run: bool,
    pub stage: Stage,
}

impl ProjectCleanup {
    /// Starts the cleanup of a project: its target is resolved first.
    pub fn new(project: CargoProject, dry_run: bool) -> (r: ProjectCleanup)
        ensures
            r.project@ == project@,
            r.dry_run == dry_run,
            r.stage@ == StageModel::ResolveTarget,
    {
        ProjectCleanup { project, dry_run, stage: Stage::ResolveTarget }
    }

    /// Whether the outcome is known.
    pub fn is_done(&self) -> (r: bool)
        ensures
            r == (self.stage@ is Done),
    {
        match self.stage {
            Stage::Done(_) => true,
            _ => false,
        }
    }

    fn skip(&self, reason: &str) -> (r: Stage)
        ensures
            r@ == skipped(self.project@, reason@),
    {
        Stage::Done(
            Ok(
                CleanupStatus::UnsafeSkip(
                    SkippedProject { root: self.project.root.duplicate(), reason: text_string(reason) },
                ),
            ),
        )
    }

    fn fail(&self, lead: &str, path: &FsPath, detail: &String) -> (r: Stage)
        ensures
            r@ == failed(self.project@, path_message(lead@, path@, detail@)),
    {
        let message = path_message_string(lead, path, detail);
        Stage::Done(Err(path_error(self.project.root.duplicate(), message)))
    }

    /// Takes in what a step found, and moves to the next stage.
    pub fn handle(&mut self, event: CleanupEvent)
        ensures
            final(self).project@ == old(self).project@,
            final(self).dry_run == old(self).dry_run,
            final(self).stage@ == next_stage(old(self).project@, old(self).dry_run, old(self).stage@, event@),
            event matches CleanupEvent::TargetResolved(Err(e)) ==> (old(self).stage is ResolveTarget
                ==> final(self).stage@ == StageModel::Done(Err::<StatusModel, ErrorModel>(e@))),
    {
        let ghost p = self.project@;
        let next: Option<Stage> = match (&self.stage, event) {
            (Stage::ResolveTarget, CleanupEvent::TargetResolved(r)) => match r {
                Ok(t) => Some(Stage::Inspect(t)),
                Err(err) => Some(Stage::Done(Err(err))),
            },
            (Stage::Inspect(t), CleanupEvent::TargetInspected(k)) => match k {
                TargetKind::Missing => Some(Stage::Done(Ok(CleanupStatus::MissingTarget))),
                TargetKind::Unreadable(m) => Some(self.fail("failed to inspect ", t, &m)),
                TargetKind::Symlink => Some(self.skip("target is a symlink and was left untouched")),
                TargetKind::NotDirectory => Some(self.skip("target exists but is not a directory")),
                TargetKind::Directory => Some(Stage::Canonicalize(t.duplicate())),
            },
            (Stage::Canonicalize(t), CleanupEvent::TargetCanonicalized(r)) => match r {
                Err(m) => Some(self.fail("failed to resolve ", t, &m)),
                Ok(c) => {
                    if c.same_as(&self.project.root) {
                        Some(self.skip("resolved target directory is the Cargo project root"))
                    } else if !c.starts_with(&self.project.root) {
                        Some(self.skip("configured target-dir resolves outside the Cargo project root"))
                    } else {
                        Some(Stage::CheckManifest(c))
                    }
                },
            },
            (Stage::CheckManifest(c), CleanupEvent::ManifestChecked(r)) => match r {
                Ok(true) => Some(Stage::Measure(c.duplicate())),
                Ok(false) => Some(self.skip("Cargo.toml no longer looks like a Cargo manifest")),
                Err(m) => {
                    let mut reason: Vec<char> = Vec::new();
                    push_text(&mut reason, "failed to re-read Cargo.toml before cleanup: ");
                    push_text(&mut reason, m.as_str());
                    let reason = string_from_chars(&reason);
                    Some(
                        Stage::Done(
                            Ok(
                                CleanupStatus::UnsafeSkip(
                                    SkippedProject { root: self.project.root.duplicate(), reason },
                                ),
                            ),
                        ),
                    )
                },
            },
            (Stage::Measure(c), CleanupEvent::TargetMeasured(r)) => match r {
                Err(m) => Some(self.fail("failed to calculate size of ", c, &m)),
                Ok(n) => {
                    let entry = CleanedProject {
                        root: self.project.root.duplicate(),
                        target: c.duplicate(),
                        size_bytes: n,
                    };
                    if self.dry_run {
                        Some(Stage::Done(Ok(CleanupStatus::DryRun(entry))))
                    } else {
                        Some(Stage::Remove(entry))
                    }
                },
            },
            (Stage::Remove(entry), CleanupEvent::TargetRemoved(r)) => match r {
                Ok(_) => Some(
                    Stage::Done(
                        Ok(
                            CleanupStatus::Cleaned(
                                CleanedProject {
                                    root: entry.root.duplicate(),
                                    target: entry.target.duplicate(),
                                    size_bytes: entry.size_bytes,
                                },
                            ),
                        ),
                    ),
                ),
                Err(m) => Some(self.fail("failed to delete ", &entry.target, &m)),
            },
            _ => None,
        };
        match next {
            Some(s) => {
                self.stage = s;
            },
            None => {},
        }
    }
}


/// The cleanup of a list of projects, one after the other.
pub struct CleanupRun {
    pub projects: Vec<CargoProject>,
    pub dry_run: bool,
    /// How many projects are finished.
    pub position: usize,
    /// The cleanup of the project at `position`, while there is one.
    pub job: Option<ProjectCleanup>,
    pub report: CleanupReport,
}

/// A run as values: how many projects are finished, the stage of the
/// current project's cleanup, and the report so far.
pub struct RunModel {
    pub position: nat,
    pub stage: StageModel,
    pub report: ReportModel,
}

impl View for CleanupRun {
    type V = RunModel;

    open spec fn view(&self) -> RunModel {
        RunModel {
            position: self.position as nat,
            stage: match self.job {
                Some(j) => j.stage@,
                None => StageModel::ResolveTarget,
            },
            report: self.report@,
        }
    }
}

/// A run before any step: no project finished, the first one about to have
/// its target resolved, and an empty report.
pub open spec fn initial_run() -> RunModel {
    RunModel { position: 0, stage: StageModel::ResolveTarget, report: empty_report() }
}

/// One step of a run over the projects `ps`: the current project's stage
/// moves on; when it reaches an outcome, the outcome is filed, the next
/// project starts, and the finished project's index is given out. A run
/// past the last project takes no more steps.
pub open spec fn run_step(ps: Seq<ProjectModel>, dry_run: bool, m: RunModel, e: EventModel) -> (RunModel, Option<nat>) {
    if m.position >= ps.len() {
        (m, None)
    } else {
        let next = next_stage(ps[m.position as int], dry_run, m.stage, e);
        match next {
            StageModel::Done(o) => (
                RunModel {
                    position: m.position + 1,
                    stage: StageModel::ResolveTarget,
                    report: report_with(m.report, o),
                },
                Some(m.position),
            ),
            _ => (RunModel { stage: next, ..m }, None),
        }
    }
}

/// The run after a sequence of events from the start, with, for each
/// project finished on the way, its index and the report right after its
/// outcome was filed.
pub open spec fn run_from_start(ps: Seq<ProjectModel>, dry_run: bool, events: Seq<EventModel>) -> (RunModel, Seq<(nat, ReportModel)>)
    decreases events.len(),
{
    if events.len() == 0 {
        (initial_run(), seq![])
    } else {
        let prev = run_from_start(ps, dry_run, events.drop_last());
        let step = run_step(ps, dry_run, prev.0, events.last());
        (
            step.0,
            match step.1 {
                Some(i) => prev.1.push((i, step.0.report)),
                None => prev.1,
            },
        )
    }
}

proof fn lemma_report_with_total(r: ReportModel, o: Result<StatusModel, ErrorModel>)
    ensures
        report_total(report_with(r, o)) == report_total(r) + 1,
{
}

/// Every project of a run is finished once, in order: whatever the steps
/// find, the projects finished so far are `0, 1, ...` in that order, the
/// report right after the `k`-th accounts for exactly `k + 1` projects,
/// the report after the last one finished is the run's report, and no
/// project past the end is ever finished.
pub proof fn lemma_projects_finish_once_in_order(ps: Seq<ProjectModel>, dry_run: bool, events: Seq<EventModel>)
    ensures
        ({
            let (m, finished) = run_from_start(ps, dry_run, events);
            &&& m.position <= ps.len()
            &&& finished.len() == m.position
            &&& report_total(m.report) == m.position
            &&& forall|k: int| 0 <= k < finished.len() ==> (#[trigger] finished[k]).0 == k
                && report_total(finished[k].1) == k + 1
            &&& finished.len() > 0 ==> finished.last().1 == m.report
        }),
    decreases events.len(),
{
    if events.len() > 0 {
        lemma_projects_finish_once_in_order(ps, dry_run, events.drop_last());
        let prev = run_from_start(ps, dry_run, events.drop_last());
        let m = prev.0;
        if m.position < ps.len() {
            let next = next_stage(ps[m.position as int], dry_run, m.stage, events.last());
            if let StageModel::Done(o) = next {
                lemma_report_with_total(m.report, o);
            }
        }
    }
}

impl CleanupRun {
    /// The run is consistent: the report accounts for exactly the finished
    /// projects, and the current job is the next project's, not yet done.
    pub open spec fn well_formed(&self) -> bool {
        &&& self.position <= self.projects.len()
        &&& report_total(self.report@) == self.position
        &&& match self.job {
            Some(j) => {
                &&& self.position < self.projects.len()
                &&& j.project@ == self.projects@[self.position as int]@
                &&& j.dry_run == self.dry_run
                &&& !(j.stage@ is Done)
            },
            None => self.position == self.projects.len(),
        }
    }

    /// Whether every project is finished.
    pub fn is_finished(&self) -> (r: bool)
        requires
            self.well_formed(),
        ensures
            r == (self.position == self.projects.len()),
    {
        self.job.is_none()
    }

    /// Takes in what a step of the current project's cleanup found. When
    /// that project is finished, its outcome goes into the report, the next
    /// project's cleanup starts, and the finished project's index is
    /// returned.
    pub fn handle(&mut self, event: CleanupEvent) -> (finished: Option<usize>)
        requires
            old(self).well_formed(),
            old(self).job is Some,
        ensures
            final(self).well_formed(),
            final(self).projects@ == old(self).projects@,
            final(self).dry_run == old(self).dry_run,
            run_step(projects_model(old(self).projects@), old(self).dry_run, old(self)@, event@) == (
                final(self)@,
                match finished {
                    Some(i) => Some(i as nat),
                    None => None,
                },
            ),
            ({
                let j = old(self).job->0;
                let next = next_stage(j.project@, j.dry_run, j.stage@, event@);
                match next {
                    StageModel::Done(o) => {
                        &&& finished == Some(old(self).position)
                        &&& final(self).position == old(self).position + 1
                        &&& final(self).report@ == report_with(old(self).report@, o)
                        &&& (final(self).job matches Some(n) ==> n.stage@ == StageModel::ResolveTarget)
                    },
                    _ => {
                        &&& finished is None
                        &&& final(self).position == old(self).position
                        &&& final(self).report@ == old(self).report@
                        &&& (final(self).job matches Some(n) && n.stage@ == next)
                    },
                }
            }),
    {
        let mut job = self.job.take().unwrap();
        job.handle(event);
        if !job.is_done() {
            self.job = Some(job);
            return None;
        }
        let finished = self.position;
        let outcome = match job.stage {
            Stage::Done(o) => o,
            _ => {
                proof {
                    assert(false);
                }
                Err(path_error(FsPath::from_bytes(Vec::new()), text_string("")))
            },
        };
        self.report.record(outcome);
        self.position = self.position + 1;
        if self.position < self.projects.len() {
            let project = self.projects[self.position].duplicate();
            self.job = Some(ProjectCleanup::new(project, self.dry_run));
        }
        Some(finished)
    }
}

/// Starts cleaning the projects in order. A dry run only reports what would
/// be removed.
pub fn clean_projects(projects: &Vec<CargoProject>, dry_run: bool) -> (r: CleanupRun)
    ensures
        r.well_formed(),
        projects_model(r.projects@) == projects_model(projects@),
        r.dry_run == dry_run,
        r.position == 0,
        r.report@ == empty_report(),
        r.job matches Some(j) ==> j.stage@ == StageModel::ResolveTarget,
        r@ == initial_run(),
{
    let mut copies: Vec<CargoProject> = Vec::new();
    let mut i: usize = 0;
    while i < projects.len()
        invariant
            i <= projects.len(),
            copies.len() == i,
            forall|k: int| 0 <= k < i ==> #[trigger] copies@[k]@ == projects@[k]@,
        decreases projects.len() - i,
    {
        copies.push(projects[i].duplicate());
        i = i + 1;
    }
    assert(projects_model(copies@) =~= projects_model(projects@));
    let job = if copies.len() > 0 {
        Some(ProjectCleanup::new(copies[0].duplicate(), dry_run))
    } else {
        None
    };
    CleanupRun { projects: copies, dry_run, position: 0, job, report: CleanupReport::new() }
}

} // verus!
