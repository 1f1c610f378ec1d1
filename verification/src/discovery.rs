//! Walking the scan roots for Cargo projects: directories are visited depth
//! first in name order, links are never followed, common tool and hidden
//! directories are skipped, and each project root is reported once.

use vstd::prelude::*;
use vstd::utf8::valid_utf8;

use crate::config::text_bytes;
use crate::path::{
    join_bytes, lemma_join_name_below, lemma_parts_order_laws, lemma_path_order_chain,
    lemma_sorted_by_path_contains, lemma_starts_with_self, parts, path_order, path_starts_with,
    paths_model, same_path, sort_paths, sorted_by_path, valid_entry_name, FsPath, Order, DOT,
};
use crate::text::{push_text, string_from_chars};
use crate::types::{
    errors_model, path_error, projects_model, CargoProject, DiscoveryResult, ErrorModel, PathError,
    ProjectModel,
};

verus! {

/// Calls `std::str::from_utf8`. Claims that the bytes are accepted exactly
/// when they are valid UTF-8.
#[verifier::external_body]
fn is_utf8(bytes: &Vec<u8>) -> (r: bool)
    ensures
        r == valid_utf8(bytes@),
{
    std::str::from_utf8(bytes).is_ok()
}

/// The platform the tool runs on, as far as skipping directories goes.
pub struct HostKind {
    pub windows: bool,
    pub macos: bool,
    pub unix: bool,
}

/// An ASCII letter folded to lower case.
pub open spec fn fold_byte(b: u8) -> u8 {
    if 65 <= b && b <= 90 {
        (b + 32) as u8
    } else {
        b
    }
}

/// Equal up to the case of ASCII letters, as `eq_ignore_ascii_case`.
pub open spec fn eq_ignore_case(a: Seq<u8>, b: Seq<u8>) -> bool {
    a.len() == b.len() && forall|i: int| 0 <= i < a.len() ==> fold_byte(a[i]) == fold_byte(b[i])
}

/// The name is one of the tool and build directories skipped everywhere,
/// in any ASCII case.
pub open spec fn is_common_skip(name: Seq<u8>) -> bool {
    eq_ignore_case(name, text_bytes(".git"@)) || eq_ignore_case(name, text_bytes(".hg"@))
        || eq_ignore_case(name, text_bytes(".svn"@)) || eq_ignore_case(name, text_bytes(".idea"@))
        || eq_ignore_case(name, text_bytes(".vscode"@)) || eq_ignore_case(name, text_bytes(".cargo"@))
        || eq_ignore_case(name, text_bytes(".rustup"@)) || eq_ignore_case(
        name,
        text_bytes("node_modules"@),
    ) || eq_ignore_case(name, text_bytes("target"@))
}

/// A directory with this name is not descended into: the name is text and
/// is a common tool or build directory, or hidden (starts with `.`), or
/// `AppData` on Windows, `Library` on macOS, `.cache` on Unix.
pub open spec fn skip_dir_name(name: Seq<u8>, host: HostKind) -> bool {
    valid_utf8(name) && (is_common_skip(name) || (name.len() > 0 && name[0] == DOT) || (host.windows
        && eq_ignore_case(name, text_bytes("AppData"@))) || (host.macos && name == text_bytes(
        "Library"@,
    )) || (host.unix && name == text_bytes(".cache"@)))
}

fn bytes_eq_ignore_case(a: &Vec<u8>, text: &str) -> (r: bool)
    ensures
        r == eq_ignore_case(a@, text_bytes(text@)),
{
    let b = text.as_bytes();
    if a.len() != b.len() {
        return false;
    }
    let mut i: usize = 0;
    while i < a.len()
        invariant
            a@.len() == b@.len(),
            b@ == text_bytes(text@),
            i <= a.len(),
            forall|k: int| 0 <= k < i ==> fold_byte(a@[k]) == fold_byte(b@[k]),
        decreases a.len() - i,
    {
        let x = if 65 <= a[i] && a[i] <= 90 {
            a[i] + 32
        } else {
            a[i]
        };
        let y = if 65 <= b[i] && b[i] <= 90 {
            b[i] + 32
        } else {
            b[i]
        };
        if x != y {
            return false;
        }
        i = i + 1;
    }
    true
}

fn bytes_eq(a: &Vec<u8>, text: &str) -> (r: bool)
    ensures
        r == (a@ == text_bytes(text@)),
{
    let b = text.as_bytes();
    if a.len() != b.len() {
        return false;
    }
    let mut i: usize = 0;
    while i < a.len()
        invariant
            a@.len() == b@.len(),
            b@ == text_bytes(text@),
            i <= a.len(),
            forall|k: int| 0 <= k < i ==> a@[k] == b@[k],
        decreases a.len() - i,
    {
        if a[i] != b[i] {
            return false;
        }
        i = i + 1;
    }
    assert(a@ =~= b@);
    true
}

/// Whether a directory with this name is skipped by the scan.
pub fn should_skip_dir(name: &Vec<u8>, host: &HostKind) -> (r: bool)
    ensures
        r == skip_dir_name(name@, *host),
{
    if !is_utf8(name) {
        return false;
    }
    let common = bytes_eq_ignore_case(name, ".git") || bytes_eq_ignore_case(name, ".hg")
        || bytes_eq_ignore_case(name, ".svn") || bytes_eq_ignore_case(name, ".idea")
        || bytes_eq_ignore_case(name, ".vscode") || bytes_eq_ignore_case(name, ".cargo")
        || bytes_eq_ignore_case(name, ".rustup") || bytes_eq_ignore_case(name, "node_modules")
        || bytes_eq_ignore_case(name, "target");
    if common {
        return true;
    }
    if name.len() > 0 && name[0] == DOT {
        return true;
    }
    if host.windows && bytes_eq_ignore_case(name, "AppData") {
        return true;
    }
    if host.macos && bytes_eq(name, "Library") {
        return true;
    }
    if host.unix && bytes_eq(name, ".cache") {
        return true;
    }
    false
}

/// The kind of a directory entry, links not followed.
pub enum EntryKind {
    Symlink,
    Directory,
    File,
    Other,
}

/// One entry of a directory listing.
pub enum DirEntryInfo {
    /// The listing could not produce the entry; the error's text.
    Unlisted(String),
    /// The entry's kind could not be read: its file name and the error's
    /// text.
    Uninspected(Vec<u8>, String),
    /// The entry: its file name and its kind.
    Listed(Vec<u8>, EntryKind),
}

/// A directory entry as values.
pub enum EntryModel {
    Unlisted(Seq<char>),
    Uninspected(Seq<u8>, Seq<char>),
    Listed(Seq<u8>, EntryKind),
}

impl View for DirEntryInfo {
    type V = EntryModel;

    open spec fn view(&self) -> EntryModel {
        match self {
            DirEntryInfo::Unlisted(m) => EntryModel::Unlisted(m@),
            DirEntryInfo::Uninspected(n, m) => EntryModel::Uninspected(n@, m@),
            DirEntryInfo::Listed(n, k) => EntryModel::Listed(n@, *k),
        }
    }
}

/// The entries of a listing, as values.
pub open spec fn entries_model(v: Seq<DirEntryInfo>) -> Seq<EntryModel> {
    v.map_values(|e: DirEntryInfo| e@)
}

/// An error about a path.
pub open spec fn scan_error(path: Seq<u8>, message: Seq<char>) -> ErrorModel {
    ErrorModel { path, message }
}

/// The problems a listing of `dir` reports, in order.
pub open spec fn listing_errors(dir: Seq<u8>, es: Seq<EntryModel>) -> Seq<ErrorModel>
    decreases es.len(),
{
    if es.len() == 0 {
        seq![]
    } else {
        let prev = listing_errors(dir, es.drop_last());
        match es.last() {
            EntryModel::Unlisted(m) => prev.push(
                scan_error(dir, "failed to enumerate directory entry: "@ + m),
            ),
            EntryModel::Uninspected(n, m) => prev.push(
                scan_error(join_bytes(dir, n), "failed to inspect file type: "@ + m),
            ),
            _ => prev,
        }
    }
}

/// The subdirectories of a listing of `dir` that are descended into, in
/// order: each is `dir` joined with the entry's name.
pub open spec fn listing_children(dir: Seq<u8>, es: Seq<EntryModel>, host: HostKind) -> Seq<Seq<u8>>
    decreases es.len(),
{
    if es.len() == 0 {
        seq![]
    } else {
        let prev = listing_children(dir, es.drop_last(), host);
        match es.last() {
            EntryModel::Listed(n, EntryKind::Directory) => if skip_dir_name(n, host) {
                prev
            } else {
                prev.push(join_bytes(dir, n))
            },
            _ => prev,
        }
    }
}

/// The manifest of a listing of `dir`: `dir` joined with `Cargo.toml`,
/// when the listing has a regular file of that name.
pub open spec fn listing_manifest(dir: Seq<u8>, es: Seq<EntryModel>) -> Option<Seq<u8>>
    decreases es.len(),
{
    if es.len() == 0 {
        None
    } else {
        match es.last() {
            EntryModel::Listed(n, EntryKind::File) => if n == text_bytes("Cargo.toml"@) {
                Some(join_bytes(dir, n))
            } else {
                listing_manifest(dir, es.drop_last())
            },
            _ => listing_manifest(dir, es.drop_last()),
        }
    }
}

/// Every name the listing gives is one a directory listing can give.
pub open spec fn names_valid(es: Seq<EntryModel>) -> bool {
    forall|i: int| 0 <= i < es.len() ==> (#[trigger] es[i] matches EntryModel::Listed(n, _) ==> valid_entry_name(n))
}

/// The manifest path of a directory.
pub open spec fn manifest_of(dir: Seq<u8>) -> Seq<u8> {
    join_bytes(dir, text_bytes("Cargo.toml"@))
}

/// Where the scan stands.
pub enum ScanStage {
    /// List this directory.
    List(FsPath),
    /// Read this directory's manifest again to see whether it is Cargo's.
    CheckManifest(FsPath, FsPath),
    /// Resolve this directory, which holds a Cargo manifest, to its
    /// canonical form.
    Normalize(FsPath, FsPath),
    /// Every root is scanned.
    Finished,
}

/// A scan stage as values.
pub enum ScanStageModel {
    List(Seq<u8>),
    CheckManifest(Seq<u8>, Seq<u8>),
    Normalize(Seq<u8>, Seq<u8>),
    Finished,
}

impl View for ScanStage {
    type V = ScanStageModel;

    open spec fn view(&self) -> ScanStageModel {
        match self {
            ScanStage::List(d) => ScanStageModel::List(d@),
            ScanStage::CheckManifest(d, m) => ScanStageModel::CheckManifest(d@, m@),
            ScanStage::Normalize(d, m) => ScanStageModel::Normalize(d@, m@),
            ScanStage::Finished => ScanStageModel::Finished,
        }
    }
}

/// The scan of the roots for Cargo projects.
pub struct ProjectScan {
    pub roots: Vec<FsPath>,
    pub root_index: usize,
    /// Directories still to visit under the current root; the last is next.
    pub stack: Vec<FsPath>,
    /// The sorted subdirectories of the directory being visited.
    pub pending: Vec<FsPath>,
    pub host: HostKind,
    pub result: DiscoveryResult,
    pub stage: ScanStage,
}

/// A scan as values.
pub struct ScanModel {
    pub roots: Seq<Seq<u8>>,
    pub root_index: nat,
    pub stack: Seq<Seq<u8>>,
    pub pending: Seq<Seq<u8>>,
    pub host: HostKind,
    pub projects: Seq<ProjectModel>,
    pub errors: Seq<ErrorModel>,
    pub stage: ScanStageModel,
}

impl View for ProjectScan {
    type V = ScanModel;

    open spec fn view(&self) -> ScanModel {
        ScanModel {
            roots: paths_model(self.roots@),
            root_index: self.root_index as nat,
            stack: paths_model(self.stack@),
            pending: paths_model(self.pending@),
            host: self.host,
            projects: projects_model(self.result.projects@),
            errors: errors_model(self.result.errors@),
            stage: self.stage@,
        }
    }
}

/// No two projects share a root.
pub open spec fn distinct_roots(ps: Seq<ProjectModel>) -> bool {
    forall|i: int, j: int| 0 <= i < j < ps.len() ==> !same_path(ps[i].root, ps[j].root)
}

/// The scan stays inside its roots: while it runs, every directory it is
/// at or will visit lies at or below the root being scanned, and the
/// manifest it looks at is the current directory's `Cargo.toml`; every
/// project's manifest is the `Cargo.toml` of a directory at or below one of
/// the roots.
#[verifier::opaque]
pub open spec fn scan_confined(m: ScanModel) -> bool {
    &&& (m.root_index < m.roots.len() ==> queued_inside(m) && stage_inside(m))
    &&& projects_inside(m.roots, m.projects)
}

/// The directories still to visit lie at or below the current root.
pub open spec fn queued_inside(m: ScanModel) -> bool {
    let root = m.roots[m.root_index as int];
    &&& forall|i: int| 0 <= i < m.stack.len() ==> path_starts_with(#[trigger] m.stack[i], root)
    &&& forall|i: int| 0 <= i < m.pending.len() ==> path_starts_with(#[trigger] m.pending[i], root)
}

/// The directory the scan is at lies at or below the current root, and the
/// manifest it looks at is that directory's `Cargo.toml`.
pub open spec fn stage_inside(m: ScanModel) -> bool {
    let root = m.roots[m.root_index as int];
    match m.stage {
        ScanStageModel::List(d) => path_starts_with(d, root) && m.pending.len() == 0,
        ScanStageModel::CheckManifest(d, man) => path_starts_with(d, root) && man == manifest_of(d),
        ScanStageModel::Normalize(d, man) => path_starts_with(d, root) && man == manifest_of(d),
        ScanStageModel::Finished => true,
    }
}

/// Every project's manifest is the `Cargo.toml` of a directory at or below
/// one of the roots.
pub open spec fn projects_inside(roots: Seq<Seq<u8>>, projects: Seq<ProjectModel>) -> bool {
    forall|k: int| 0 <= k < projects.len() ==> #[trigger] found_inside(roots, projects[k])
}

/// The project's manifest is the `Cargo.toml` of a directory at or below
/// one of the roots.
pub open spec fn found_inside(roots: Seq<Seq<u8>>, p: ProjectModel) -> bool {
    exists|d: Seq<u8>, i: int| 0 <= i < roots.len() && #[trigger] path_starts_with(d, roots[i])
        && p.manifest == manifest_of(d)
}

/// The scan is consistent: its root index is in range while it runs, no
/// project is reported twice, and it stays inside its roots.
pub open spec fn scan_well_formed(m: ScanModel) -> bool {
    &&& (!(m.stage is Finished) ==> m.root_index < m.roots.len())
    &&& distinct_roots(m.projects)
    &&& scan_confined(m)
}

/// The next directory to visit: the top of the stack, else the next root,
/// else the end.
pub open spec fn advance(m: ScanModel) -> ScanModel {
    if m.stack.len() > 0 {
        ScanModel { stack: m.stack.drop_last(), stage: ScanStageModel::List(m.stack.last()), ..m }
    } else if m.root_index + 1 < m.roots.len() {
        ScanModel {
            root_index: m.root_index + 1,
            stage: ScanStageModel::List(m.roots[m.root_index + 1 as int]),
            ..m
        }
    } else {
        ScanModel { stage: ScanStageModel::Finished, ..m }
    }
}

/// The visit of a directory is over: its sorted subdirectories go onto the
/// stack so that the first in order is visited next.
pub open spec fn settle(m: ScanModel) -> ScanModel {
    advance(ScanModel { stack: m.stack + m.pending.reverse(), pending: seq![], ..m })
}

/// The scan after the current directory was listed.
pub open spec fn after_listing(m: ScanModel, listing: Result<Seq<EntryModel>, Seq<char>>) -> ScanModel {
    match m.stage {
        ScanStageModel::List(dir) => match listing {
            Err(e) => advance(
                ScanModel { errors: m.errors.push(scan_error(dir, "failed to read directory: "@ + e)), ..m },
            ),
            Ok(es) => {
                let found = ScanModel {
                    errors: m.errors + listing_errors(dir, es),
                    pending: sorted_by_path(listing_children(dir, es, m.host)),
                    ..m
                };
                match listing_manifest(dir, es) {
                    Some(manifest) => ScanModel {
                        stage: ScanStageModel::CheckManifest(dir, manifest),
                        ..found
                    },
                    None => settle(found),
                }
            },
        },
        _ => m,
    }
}

/// The scan after the manifest was read again.
pub open spec fn after_manifest(m: ScanModel, r: Result<bool, Seq<char>>) -> ScanModel {
    match m.stage {
        ScanStageModel::CheckManifest(dir, manifest) => match r {
            Ok(true) => ScanModel { stage: ScanStageModel::Normalize(dir, manifest), ..m },
            Ok(false) => settle(m),
            Err(e) => settle(
                ScanModel {
                    errors: m.errors.push(scan_error(manifest, "failed to parse manifest: "@ + e)),
                    ..m
                },
            ),
        },
        _ => m,
    }
}

/// Some project already has this root.
pub open spec fn root_seen(ps: Seq<ProjectModel>, root: Seq<u8>) -> bool {
    exists|i: int| 0 <= i < ps.len() && same_path(#[trigger] ps[i].root, root)
}

/// The scan after the project directory was resolved: the canonical form,
/// or the directory as it was when that failed, is the project root; a root
/// already seen is not reported again.
pub open spec fn after_normalize(m: ScanModel, canonical: Option<Seq<u8>>) -> ScanModel {
    match m.stage {
        ScanStageModel::Normalize(dir, manifest) => {
            let root = match canonical {
                Some(c) => c,
                None => dir,
            };
            if root_seen(m.projects, root) {
                settle(m)
            } else {
                settle(ScanModel { projects: m.projects.push(ProjectModel { root, manifest }), ..m })
            }
        },
        _ => m,
    }
}


/// What the caller hands the scan at a step: a listing, the manifest check,
/// or the resolved project directory.
pub enum ScanAnswer {
    Listing(Result<Seq<EntryModel>, Seq<char>>),
    Manifest(Result<bool, Seq<char>>),
    Canonical(Option<Seq<u8>>),
}

/// One step of the scan: `listed`, `manifest_checked` or `normalized`.
pub open spec fn scan_step(m: ScanModel, a: ScanAnswer) -> ScanModel {
    match a {
        ScanAnswer::Listing(l) => after_listing(m, l),
        ScanAnswer::Manifest(r) => after_manifest(m, r),
        ScanAnswer::Canonical(c) => after_normalize(m, c),
    }
}

/// The scan as `discover_projects` starts it.
pub open spec fn scan_start(roots: Seq<Seq<u8>>, host: HostKind) -> ScanModel {
    ScanModel {
        roots,
        root_index: 0,
        stack: seq![],
        pending: seq![],
        host,
        projects: seq![],
        errors: seq![],
        stage: if roots.len() > 0 {
            ScanStageModel::List(roots[0])
        } else {
            ScanStageModel::Finished
        },
    }
}

/// The scan after a sequence of steps from the start.
pub open spec fn scan_from(roots: Seq<Seq<u8>>, host: HostKind, answers: Seq<ScanAnswer>) -> ScanModel
    decreases answers.len(),
{
    if answers.len() == 0 {
        scan_start(roots, host)
    } else {
        scan_step(scan_from(roots, host, answers.drop_last()), answers.last())
    }
}

/// The scan's place among the roots is consistent: while it runs it is at
/// one of them, and it is finished only at the last.
pub open spec fn roots_in_order(m: ScanModel) -> bool {
    &&& (!(m.stage is Finished) ==> m.root_index < m.roots.len())
    &&& (m.roots.len() > 0 ==> m.root_index < m.roots.len())
    &&& (m.stage is Finished ==> m.root_index + 1 >= m.roots.len())
}

/// Some state the scan reaches on a prefix of the answers lists root `i`.
pub open spec fn lists_root(roots: Seq<Seq<u8>>, host: HostKind, answers: Seq<ScanAnswer>, i: int) -> bool {
    exists|k: int| 0 <= k <= answers.len() && #[trigger] scan_from(roots, host, answers.take(k)).stage
        == ScanStageModel::List(roots[i])
}

/// When a root's directories are done, the next root is listed: the scan
/// moves from root `i` only to root `i + 1`, starting with listing it, and
/// it finishes only after the last root.
pub proof fn lemma_advance_next_root(m: ScanModel)
    requires
        m.root_index < m.roots.len(),
    ensures
        roots_in_order(advance(m)),
        advance(m).roots == m.roots,
        advance(m).root_index == m.root_index || (advance(m).root_index == m.root_index + 1
            && advance(m).stage == ScanStageModel::List(m.roots[m.root_index + 1 as int])),
        m.stack.len() == 0 && m.root_index + 1 < m.roots.len() ==> advance(m).stage == ScanStageModel::List(
            m.roots[m.root_index + 1 as int],
        ),
{
}

proof fn lemma_scan_step_roots(m: ScanModel, a: ScanAnswer)
    requires
        roots_in_order(m),
    ensures
        roots_in_order(scan_step(m, a)),
        scan_step(m, a).roots == m.roots,
        scan_step(m, a).root_index == m.root_index || (scan_step(m, a).root_index == m.root_index + 1
            && scan_step(m, a).stage == ScanStageModel::List(m.roots[m.root_index + 1 as int])),
{
    match m.stage {
        ScanStageModel::Finished => {},
        ScanStageModel::List(dir) => {
            if let ScanAnswer::Listing(l) = a {
                match l {
                    Err(e) => {
                        lemma_advance_next_root(
                            ScanModel { errors: m.errors.push(scan_error(dir, "failed to read directory: "@ + e)), ..m },
                        );
                    },
                    Ok(es) => {
                        let found = ScanModel {
                            errors: m.errors + listing_errors(dir, es),
                            pending: sorted_by_path(listing_children(dir, es, m.host)),
                            ..m
                        };
                        lemma_advance_next_root(ScanModel { stack: found.stack + found.pending.reverse(), pending: seq![], ..found });
                    },
                }
            }
        },
        ScanStageModel::CheckManifest(dir, manifest) => {
            if let ScanAnswer::Manifest(r) = a {
                match r {
                    Ok(true) => {},
                    Ok(false) => {
                        lemma_advance_next_root(ScanModel { stack: m.stack + m.pending.reverse(), pending: seq![], ..m });
                    },
                    Err(e) => {
                        let q = ScanModel {
                            errors: m.errors.push(scan_error(manifest, "failed to parse manifest: "@ + e)),
                            ..m
                        };
                        lemma_advance_next_root(ScanModel { stack: q.stack + q.pending.reverse(), pending: seq![], ..q });
                    },
                }
            }
        },
        ScanStageModel::Normalize(dir, manifest) => {
            if let ScanAnswer::Canonical(c) = a {
                let root = match c {
                    Some(x) => x,
                    None => dir,
                };
                let q = if root_seen(m.projects, root) {
                    m
                } else {
                    ScanModel { projects: m.projects.push(ProjectModel { root, manifest }), ..m }
                };
                lemma_advance_next_root(ScanModel { stack: q.stack + q.pending.reverse(), pending: seq![], ..q });
            }
        },
    }
}

/// Every root is scanned: whatever the listings, manifests and resolved
/// directories the scan is handed, each root up to the one it is at has
/// been listed in some state it passed through, so once the scan is
/// finished every root, in order, was listed; the scan never skips a root
/// and finishes only after the last.
pub proof fn lemma_every_root_listed(roots: Seq<Seq<u8>>, host: HostKind, answers: Seq<ScanAnswer>)
    ensures
        roots_in_order(scan_from(roots, host, answers)),
        scan_from(roots, host, answers).roots == roots,
        forall|i: int| 0 <= i < roots.len() && i <= scan_from(roots, host, answers).root_index ==> #[trigger] lists_root(
            roots,
            host,
            answers,
            i,
        ),
        scan_from(roots, host, answers).stage is Finished ==> forall|i: int| 0 <= i < roots.len() ==> #[trigger] lists_root(
            roots,
            host,
            answers,
            i,
        ),
    decreases answers.len(),
{
    let m = scan_from(roots, host, answers);
    if answers.len() == 0 {
        assert(answers.take(0) =~= answers);
        if roots.len() > 0 {
            assert(scan_from(roots, host, answers.take(0)).stage == ScanStageModel::List(roots[0]));
            assert(lists_root(roots, host, answers, 0));
        }
    } else {
        let init = answers.drop_last();
        lemma_every_root_listed(roots, host, init);
        let prev = scan_from(roots, host, init);
        lemma_scan_step_roots(prev, answers.last());
        assert forall|i: int| 0 <= i < roots.len() && i <= m.root_index implies #[trigger] lists_root(roots, host, answers, i) by {
            if i <= prev.root_index {
                assert(lists_root(roots, host, init, i));
                let k = choose|k: int| 0 <= k <= init.len() && #[trigger] scan_from(roots, host, init.take(k)).stage
                    == ScanStageModel::List(roots[i]);
                assert(init.take(k) =~= answers.take(k));
                assert(scan_from(roots, host, answers.take(k)).stage == ScanStageModel::List(roots[i]));
            } else {
                assert(answers.take(answers.len() as int) =~= answers);
                assert(scan_from(roots, host, answers.take(answers.len() as int)).stage == ScanStageModel::List(roots[i]));
            }
        }
    }
}

/// The scan stays inside its roots: in every consistent state (and every
/// state the scan's steps reach from `discover_projects` is consistent),
/// the directory being listed, and the directory whose manifest is looked
/// at, lie at or below the root being scanned, that manifest is the
/// directory's `Cargo.toml`, every directory still queued lies below the
/// root, and every project found has as its manifest the `Cargo.toml` of a
/// directory at or below one of the roots.
pub proof fn lemma_scan_stays_inside(m: ScanModel)
    requires
        scan_well_formed(m),
    ensures
        !(m.stage is Finished) ==> {
            let root = m.roots[m.root_index as int];
            &&& forall|i: int| 0 <= i < m.stack.len() ==> path_starts_with(#[trigger] m.stack[i], root)
            &&& match m.stage {
                ScanStageModel::List(d) => path_starts_with(d, root),
                ScanStageModel::CheckManifest(d, man) => path_starts_with(d, root) && man == manifest_of(d),
                ScanStageModel::Normalize(d, man) => path_starts_with(d, root) && man == manifest_of(d),
                ScanStageModel::Finished => true,
            }
        },
        forall|k: int| 0 <= k < m.projects.len() ==> #[trigger] found_inside(m.roots, m.projects[k]),
{
    reveal(scan_confined);
}

/// Taking the next directory keeps the scan consistent.
proof fn lemma_advance_wf(m: ScanModel)
    requires
        m.root_index < m.roots.len(),
        queued_inside(m),
        m.pending.len() == 0,
        distinct_roots(m.projects),
        projects_inside(m.roots, m.projects),
    ensures
        scan_well_formed(advance(m)),
{
    reveal(scan_confined);
    let a = advance(m);
    let root = m.roots[m.root_index as int];
    if m.stack.len() > 0 {
        assert(path_starts_with(m.stack[m.stack.len() - 1], root));
        assert forall|i: int| 0 <= i < a.stack.len() implies path_starts_with(#[trigger] a.stack[i], root) by {
            assert(a.stack[i] == m.stack[i]);
        }
    } else if m.root_index + 1 < m.roots.len() {
        lemma_starts_with_self(m.roots[m.root_index + 1 as int]);
    }
}

/// Ending the visit of a directory keeps the scan consistent.
proof fn lemma_settle_wf(m: ScanModel)
    requires
        m.root_index < m.roots.len(),
        queued_inside(m),
        distinct_roots(m.projects),
        projects_inside(m.roots, m.projects),
    ensures
        scan_well_formed(settle(m)),
{
    let root = m.roots[m.root_index as int];
    let q = ScanModel { stack: m.stack + m.pending.reverse(), pending: seq![], ..m };
    assert forall|i: int| 0 <= i < q.stack.len() implies path_starts_with(#[trigger] q.stack[i], root) by {
        if i < m.stack.len() {
            assert(q.stack[i] == m.stack[i]);
        } else {
            let k = m.pending.len() - 1 - (i - m.stack.len());
            assert(q.stack[i] == m.pending[k]);
        }
    }
    lemma_advance_wf(q);
}

/// The subdirectories queued from a listing of a directory at or below a
/// root lie below that root.
proof fn lemma_children_inside(dir: Seq<u8>, es: Seq<EntryModel>, host: HostKind, root: Seq<u8>)
    requires
        path_starts_with(dir, root),
        names_valid(es),
    ensures
        forall|i: int| 0 <= i < listing_children(dir, es, host).len() ==> path_starts_with(
            #[trigger] listing_children(dir, es, host)[i],
            root,
        ),
    decreases es.len(),
{
    if es.len() > 0 {
        let init = es.drop_last();
        assert(names_valid(init)) by {
            assert forall|i: int| 0 <= i < init.len() implies (#[trigger] init[i] matches EntryModel::Listed(n, _) ==> valid_entry_name(n)) by {
                assert(init[i] == es[i]);
            }
        }
        lemma_children_inside(dir, init, host, root);
        let prev = listing_children(dir, init, host);
        let kids = listing_children(dir, es, host);
        let last = es[es.len() - 1];
        if let EntryModel::Listed(n, EntryKind::Directory) = last {
            if !skip_dir_name(n, host) {
                assert(valid_entry_name(n));
                lemma_join_name_below(dir, n, root);
                assert(kids == prev.push(join_bytes(dir, n)));
                assert forall|i: int| 0 <= i < kids.len() implies path_starts_with(#[trigger] kids[i], root) by {
                    if i < prev.len() {
                        assert(kids[i] == prev[i]);
                    }
                }
            } else {
                assert(kids == prev);
            }
        } else {
            assert(kids == prev);
        }
    }
}

/// The manifest a listing gives is the directory's `Cargo.toml`.
proof fn lemma_listing_manifest_path(dir: Seq<u8>, es: Seq<EntryModel>)
    ensures
        listing_manifest(dir, es) matches Some(x) ==> x == manifest_of(dir),
    decreases es.len(),
{
    if es.len() > 0 {
        lemma_listing_manifest_path(dir, es.drop_last());
    }
}

/// Taking in a listing keeps the scan consistent.
proof fn lemma_after_listing_wf(m: ScanModel, listing: Result<Seq<EntryModel>, Seq<char>>)
    requires
        scan_well_formed(m),
        listing matches Ok(es) ==> names_valid(es),
    ensures
        scan_well_formed(after_listing(m, listing)),
{
    reveal(scan_confined);
    if let ScanStageModel::List(dir) = m.stage {
        let root = m.roots[m.root_index as int];
        match listing {
            Err(e) => {
                lemma_advance_wf(ScanModel { errors: m.errors.push(scan_error(dir, "failed to read directory: "@ + e)), ..m });
            },
            Ok(es) => {
                let kids = listing_children(dir, es, m.host);
                lemma_children_inside(dir, es, m.host, root);
                lemma_sorted_by_path_contains(kids);
                let found = ScanModel {
                    errors: m.errors + listing_errors(dir, es),
                    pending: sorted_by_path(kids),
                    ..m
                };
                assert forall|i: int| 0 <= i < found.pending.len() implies path_starts_with(#[trigger] found.pending[i], root) by {
                    assert(sorted_by_path(kids).contains(found.pending[i]));
                    assert(kids.contains(found.pending[i]));
                    let j = choose|j: int| 0 <= j < kids.len() && kids[j] == found.pending[i];
                    assert(path_starts_with(kids[j], root));
                }
                lemma_listing_manifest_path(dir, es);
                if listing_manifest(dir, es) is None {
                    lemma_settle_wf(found);
                }
            },
        }
    }
}

/// Taking in the manifest check keeps the scan consistent.
proof fn lemma_after_manifest_wf(m: ScanModel, r: Result<bool, Seq<char>>)
    requires
        scan_well_formed(m),
    ensures
        scan_well_formed(after_manifest(m, r)),
{
    reveal(scan_confined);
    if let ScanStageModel::CheckManifest(dir, manifest) = m.stage {
        match r {
            Ok(true) => {},
            Ok(false) => {
                lemma_settle_wf(m);
            },
            Err(e) => {
                lemma_settle_wf(
                    ScanModel {
                        errors: m.errors.push(scan_error(manifest, "failed to parse manifest: "@ + e)),
                        ..m
                    },
                );
            },
        }
    }
}

/// Taking in the resolved project directory keeps the scan consistent.
proof fn lemma_after_normalize_wf(m: ScanModel, canonical: Option<Seq<u8>>)
    requires
        scan_well_formed(m),
    ensures
        scan_well_formed(after_normalize(m, canonical)),
{
    reveal(scan_confined);
    if let ScanStageModel::Normalize(dir, manifest) = m.stage {
        let root = match canonical {
            Some(c) => c,
            None => dir,
        };
        if root_seen(m.projects, root) {
            lemma_settle_wf(m);
        } else {
            let p = ProjectModel { root, manifest };
            let ps = m.projects.push(p);
            assert(found_inside(m.roots, p)) by {
                let i = m.root_index as int;
                assert(path_starts_with(dir, m.roots[i]) && p.manifest == manifest_of(dir));
            }
            assert forall|k: int| 0 <= k < ps.len() implies #[trigger] found_inside(m.roots, ps[k]) by {
                if k < m.projects.len() {
                    assert(ps[k] == m.projects[k]);
                }
            }
            assert forall|i: int, j: int| 0 <= i < j < ps.len() implies !same_path(ps[i].root, ps[j].root) by {
                if j == m.projects.len() {
                    assert(ps[i] == m.projects[i]);
                } else {
                    assert(ps[i] == m.projects[i] && ps[j] == m.projects[j]);
                }
            }
            lemma_settle_wf(ScanModel { projects: ps, ..m });
        }
    }
}

/// A listing as values.
pub open spec fn listing_model(l: Result<Vec<DirEntryInfo>, String>) -> Result<Seq<EntryModel>, Seq<char>> {
    match l {
        Ok(es) => Ok(entries_model(es@)),
        Err(e) => Err(e@),
    }
}

/// A manifest check as values.
pub open spec fn check_model(r: Result<bool, String>) -> Result<bool, Seq<char>> {
    match r {
        Ok(b) => Ok(b),
        Err(e) => Err(e@),
    }
}

/// A resolved directory as values.
pub open spec fn canonical_model(c: Option<FsPath>) -> Option<Seq<u8>> {
    match c {
        Some(p) => Some(p@),
        None => None,
    }
}

fn message_with(lead: &str, detail: &String) -> (r: String)
    ensures
        r@ == lead@ + detail@,
{
    let mut out: Vec<char> = Vec::new();
    push_text(&mut out, lead);
    push_text(&mut out, detail.as_str());
    string_from_chars(&out)
}

impl ProjectScan {
    fn advance_exec(&mut self)
        requires
            old(self)@.root_index < old(self)@.roots.len(),
        ensures
            final(self)@ == advance(old(self)@),
    {
        let ghost m = self@;
        match self.stack.pop() {
            Some(next) => {
                assert(paths_model(self.stack@) =~= m.stack.drop_last());
                self.stage = ScanStage::List(next);
            },
            None => {
                if self.root_index < self.roots.len() - 1 {
                    self.root_index = self.root_index + 1;
                    self.stage = ScanStage::List(self.roots[self.root_index].duplicate());
                } else {
                    self.stage = ScanStage::Finished;
                }
            },
        }
    }

    fn settle_exec(&mut self)
        requires
            old(self)@.root_index < old(self)@.roots.len(),
        ensures
            final(self)@ == settle(old(self)@),
    {
        let ghost m = self@;
        let mut pending: Vec<FsPath> = Vec::new();
        std::mem::swap(&mut pending, &mut self.pending);
        let ghost pm = paths_model(pending@);
        assert(pm == m.pending);
        let mut i: usize = pending.len();
        let ghost base = paths_model(self.stack@);
        while i > 0
            invariant
                i <= pending.len(),
                pm == paths_model(pending@),
                paths_model(self.stack@) == base + pm.reverse().take((pm.len() - i) as int),
                self.roots@ == old(self).roots@,
                self.root_index == old(self).root_index,
                self.host == old(self).host,
                self.result == old(self).result,
                self.stage == old(self).stage,
                self.pending@.len() == 0,
            decreases i,
        {
            i = i - 1;
            let ghost before = paths_model(self.stack@);
            self.stack.push(pending[i].duplicate());
            assert(pm.reverse().take((pm.len() - i) as int) =~= pm.reverse().take((pm.len() - i - 1) as int).push(pm[i as int]));
            assert(paths_model(self.stack@) =~= before.push(pm[i as int]));
        }
        assert(pm.reverse().take(pm.len() as int) =~= pm.reverse());
        assert(paths_model(self.pending@) =~= seq![]);
        self.advance_exec();
    }

    /// Takes in the listing of the current directory, or the error's text.
    pub fn listed(&mut self, listing: Result<Vec<DirEntryInfo>, String>)
        requires
            scan_well_formed(old(self)@),
            listing matches Ok(es) ==> names_valid(entries_model(es@)),
        ensures
            scan_well_formed(final(self)@),
            final(self)@ == after_listing(
                old(self)@,
                match listing {
                    Ok(es) => Ok(entries_model(es@)),
                    Err(e) => Err(e@),
                },
            ),
    {
        proof {
            lemma_after_listing_wf(old(self)@, listing_model(listing));
        }
        let dir = match &self.stage {
            ScanStage::List(d) => d.duplicate(),
            _ => {
                return;
            },
        };
        let entries = match listing {
            Err(e) => {
                let ghost before = errors_model(self.result.errors@);
                let message = message_with("failed to read directory: ", &e);
                self.result.errors.push(path_error(dir, message));
                assert(errors_model(self.result.errors@) =~= before.push(
                    scan_error(dir@, "failed to read directory: "@ + e@),
                ));
                self.advance_exec();
                return;
            },
            Ok(es) => es,
        };
        let ghost es = entries_model(entries@);
        let ghost errors0 = errors_model(self.result.errors@);
        let mut children: Vec<FsPath> = Vec::new();
        let mut manifest: Option<FsPath> = None;
        let mut i: usize = 0;
        while i < entries.len()
            invariant
                i <= entries.len(),
                es == entries_model(entries@),
                errors_model(self.result.errors@) == errors0 + listing_errors(dir@, es.take(i as int)),
                paths_model(children@) == listing_children(dir@, es.take(i as int), self.host),
                match manifest {
                    Some(p) => listing_manifest(dir@, es.take(i as int)) == Some(p@),
                    None => listing_manifest(dir@, es.take(i as int)) is None,
                },
                self.roots@ == old(self).roots@,
                self.root_index == old(self).root_index,
                self.stack@ == old(self).stack@,
                self.pending@ == old(self).pending@,
                self.host == old(self).host,
                self.result.projects@ == old(self).result.projects@,
                self.stage@ == old(self).stage@,
            decreases entries.len() - i,
        {
            let ghost take_next = es.take(i + 1);
            assert(take_next.drop_last() =~= es.take(i as int));
            assert(take_next.last() == entries@[i as int]@);
            let ghost errs_before = errors_model(self.result.errors@);
            let ghost kids_before = paths_model(children@);
            match &entries[i] {
                DirEntryInfo::Unlisted(m) => {
                    let message = message_with("failed to enumerate directory entry: ", m);
                    self.result.errors.push(path_error(dir.duplicate(), message));
                    assert(errors_model(self.result.errors@) =~= errs_before.push(
                        scan_error(dir@, "failed to enumerate directory entry: "@ + m@),
                    ));
                },
                DirEntryInfo::Uninspected(n, m) => {
                    let message = message_with("failed to inspect file type: ", m);
                    let p = dir.join_name(n);
                    self.result.errors.push(path_error(p, message));
                    assert(errors_model(self.result.errors@) =~= errs_before.push(
                        scan_error(join_bytes(dir@, n@), "failed to inspect file type: "@ + m@),
                    ));
                },
                DirEntryInfo::Listed(n, kind) => {
                    match kind {
                        EntryKind::Directory => {
                            if !should_skip_dir(n, &self.host) {
                                let p = dir.join_name(n);
                                children.push(p);
                                assert(paths_model(children@) =~= kids_before.push(join_bytes(dir@, n@)));
                            }
                        },
                        EntryKind::File => {
                            if bytes_eq(n, "Cargo.toml") {
                                manifest = Some(dir.join_name(n));
                            }
                        },
                        _ => {},
                    }
                },
            }
            i = i + 1;
        }
        assert(es.take(entries.len() as int) =~= es);
        let sorted = sort_paths(children);
        self.pending = sorted;
        match manifest {
            Some(m) => {
                self.stage = ScanStage::CheckManifest(dir, m);
            },
            None => {
                self.settle_exec();
            },
        }
    }

    /// Takes in whether the directory's manifest looks like Cargo's, or the
    /// error's text.
    pub fn manifest_checked(&mut self, looks_like: Result<bool, String>)
        requires
            scan_well_formed(old(self)@),
        ensures
            scan_well_formed(final(self)@),
            final(self)@ == after_manifest(
                old(self)@,
                match looks_like {
                    Ok(b) => Ok(b),
                    Err(e) => Err(e@),
                },
            ),
    {
        proof {
            lemma_after_manifest_wf(old(self)@, check_model(looks_like));
        }
        let (dir, manifest) = match &self.stage {
            ScanStage::CheckManifest(d, m) => (d.duplicate(), m.duplicate()),
            _ => {
                return;
            },
        };
        match looks_like {
            Ok(true) => {
                self.stage = ScanStage::Normalize(dir, manifest);
            },
            Ok(false) => {
                self.settle_exec();
            },
            Err(e) => {
                let ghost before = errors_model(self.result.errors@);
                let message = message_with("failed to parse manifest: ", &e);
                self.result.errors.push(path_error(manifest.duplicate(), message));
                assert(errors_model(self.result.errors@) =~= before.push(
                    scan_error(manifest@, "failed to parse manifest: "@ + e@),
                ));
                self.settle_exec();
            },
        }
    }

    /// Takes in the canonical form of the project directory, or `None` when
    /// it could not be resolved. Returns whether a new project was found.
    pub fn normalized(&mut self, canonical: Option<FsPath>) -> (found: bool)
        requires
            scan_well_formed(old(self)@),
        ensures
            scan_well_formed(final(self)@),
            final(self)@ == after_normalize(
                old(self)@,
                match canonical {
                    Some(c) => Some(c@),
                    None => None,
                },
            ),
            found == (final(self)@.projects.len() == old(self)@.projects.len() + 1),
    {
        proof {
            lemma_after_normalize_wf(old(self)@, canonical_model(canonical));
        }
        let (dir, manifest) = match &self.stage {
            ScanStage::Normalize(d, m) => (d.duplicate(), m.duplicate()),
            _ => {
                return false;
            },
        };
        let root = match canonical {
            Some(c) => c,
            None => dir,
        };
        let ghost ps = projects_model(self.result.projects@);
        let mut seen = false;
        let mut k: usize = 0;
        while k < self.result.projects.len()
            invariant
                k <= self.result.projects.len(),
                ps == projects_model(self.result.projects@),
                seen == exists|i: int| 0 <= i < k && same_path(#[trigger] ps[i].root, root@),
            decreases self.result.projects.len() - k,
        {
            let same = self.result.projects[k].root.same_as(&root);
            assert(ps[k as int].root == self.result.projects@[k as int].root@);
            if same {
                seen = true;
            }
            proof {
                if !same {
                    assert forall|i: int| 0 <= i < k + 1 && same_path(#[trigger] ps[i].root, root@) implies 0 <= i < k by {}
                }
            }
            k = k + 1;
        }
        if seen {
            self.settle_exec();
            return false;
        }
        let ghost root_model = root@;
        self.result.projects.push(CargoProject { root, manifest });
        proof {
            let after = projects_model(self.result.projects@);
            assert(after =~= ps.push(ProjectModel { root: root_model, manifest: manifest@ }));
        }
        self.settle_exec();
        true
    }

    /// Whether every root is scanned.
    pub fn is_finished(&self) -> (r: bool)
        ensures
            r == (self@.stage is Finished),
    {
        match self.stage {
            ScanStage::Finished => true,
            _ => false,
        }
    }

    /// What the scan found.
    pub fn into_result(self) -> (r: DiscoveryResult)
        ensures
            projects_model(r.projects@) == self@.projects,
            errors_model(r.errors@) == self@.errors,
    {
        self.result
    }
}

/// Starts scanning the roots, in order, for Cargo projects.
pub fn discover_projects(scan_roots: &Vec<FsPath>, host: HostKind) -> (r: ProjectScan)
    ensures
        r@.roots == paths_model(scan_roots@),
        r@.root_index == 0,
        r@.stack.len() == 0,
        r@.pending.len() == 0,
        r@.host == host,
        r@.projects.len() == 0,
        r@.errors.len() == 0,
        r@.stage == (if scan_roots.len() > 0 {
            ScanStageModel::List(paths_model(scan_roots@)[0])
        } else {
            ScanStageModel::Finished
        }),
        scan_well_formed(r@),
        r@ == scan_start(paths_model(scan_roots@), host),
{
    let mut roots: Vec<FsPath> = Vec::new();
    let mut i: usize = 0;
    while i < scan_roots.len()
        invariant
            i <= scan_roots.len(),
            paths_model(roots@) == paths_model(scan_roots@).take(i as int),
        decreases scan_roots.len() - i,
    {
        let ghost before = paths_model(roots@);
        roots.push(scan_roots[i].duplicate());
        assert(paths_model(roots@) =~= before.push(scan_roots@[i as int]@));
        i = i + 1;
        assert(paths_model(roots@) =~= paths_model(scan_roots@).take(i as int));
    }
    assert(paths_model(scan_roots@).take(scan_roots.len() as int) =~= paths_model(scan_roots@));
    let stage = if roots.len() > 0 {
        ScanStage::List(roots[0].duplicate())
    } else {
        ScanStage::Finished
    };
    let result = DiscoveryResult { projects: Vec::new(), errors: Vec::new() };
    let r = ProjectScan {
        roots,
        root_index: 0,
        stack: Vec::new(),
        pending: Vec::new(),
        host,
        result,
        stage,
    };
    assert(r@.projects =~= seq![]);
    assert(r@.errors =~= seq![]);
    assert(r@.stack =~= seq![]);
    assert(r@.pending =~= seq![]);
    proof {
        reveal(scan_confined);
        if scan_roots.len() > 0 {
            lemma_starts_with_self(r@.roots[0]);
        }
    }
    r
}

/// The index of the first item at or after `from` whose key orders after
/// `x`'s, or the length.
pub open spec fn first_key_after<T>(s: Seq<T>, key: spec_fn(T) -> Seq<u8>, x: T, from: int) -> int
    decreases s.len() - from,
{
    if from >= s.len() {
        s.len() as int
    } else if path_order(key(s[from]), key(x)) == Order::Greater {
        from
    } else {
        first_key_after(s, key, x, from + 1)
    }
}

/// The items in ascending order of their path keys, items with equal keys
/// in their original order: each placed after every item whose key does
/// not order after its own.
pub open spec fn sorted_by_key<T>(s: Seq<T>, key: spec_fn(T) -> Seq<u8>) -> Seq<T>
    decreases s.len(),
{
    if s.len() == 0 {
        s
    } else {
        let rest = sorted_by_key(s.drop_last(), key);
        rest.insert(first_key_after(rest, key, s.last(), 0), s.last())
    }
}

/// The items' keys are in ascending path order.
pub open spec fn key_sorted<T>(s: Seq<T>, key: spec_fn(T) -> Seq<u8>) -> bool {
    forall|i: int, j: int| 0 <= i < j < s.len() ==> path_order(key(s[i]), key(s[j])) != Order::Greater
}

/// A project's root, its sort key.
pub open spec fn root_key() -> spec_fn(ProjectModel) -> Seq<u8> {
    |p: ProjectModel| p.root
}

/// A problem's path, its sort key.
pub open spec fn error_key() -> spec_fn(ErrorModel) -> Seq<u8> {
    |e: ErrorModel| e.path
}

/// Inserting an item where the first later key stands keeps the keys sorted.
proof fn lemma_insert_keeps_sorted<T>(before: Seq<T>, key: spec_fn(T) -> Seq<u8>, x: T, k: int)
    requires
        key_sorted(before, key),
        0 <= k <= before.len(),
        forall|m: int| 0 <= m < k ==> path_order(#[trigger] key(before[m]), key(x)) != Order::Greater,
        k < before.len() ==> path_order(key(before[k]), key(x)) == Order::Greater,
    ensures
        key_sorted(before.insert(k, x), key),
{
    let after = before.insert(k, x);
    assert forall|a: int, b: int| 0 <= a < b < after.len() implies path_order(
        key(after[a]),
        key(after[b]),
    ) != Order::Greater by {
        if b < k {
            assert(after[a] == before[a] && after[b] == before[b]);
        } else if b == k {
            assert(after[a] == before[a]);
        } else if a > k {
            assert(after[a] == before[a - 1] && after[b] == before[b - 1]);
        } else if a == k {
            assert(after[b] == before[b - 1]);
            lemma_parts_order_laws(parts(key(x)), parts(key(before[k])));
            if k + 1 < b {
                assert(path_order(key(before[k]), key(before[b - 1])) != Order::Greater);
                lemma_path_order_chain(key(x), key(before[k]), key(before[b - 1]));
            }
        } else {
            assert(after[a] == before[a] && after[b] == before[b - 1]);
        }
    }
}

/// Sorts projects by root, keeping projects with the same root in order.
fn sort_projects(v: Vec<CargoProject>) -> (r: Vec<CargoProject>)
    ensures
        projects_model(r@) == sorted_by_key(projects_model(v@), root_key()),
        projects_model(r@).to_multiset() == projects_model(v@).to_multiset(),
        key_sorted(projects_model(r@), root_key()),
{
    let mut out: Vec<CargoProject> = Vec::new();
    let ghost all = projects_model(v@);
    let ghost key = root_key();
    let mut i: usize = 0;
    proof {
        assert(projects_model(out@) =~= all.take(0));
        assert(sorted_by_key(all.take(0), key) =~= all.take(0));
    }
    while i < v.len()
        invariant
            i <= v.len(),
            all == projects_model(v@),
            key == root_key(),
            projects_model(out@).to_multiset() == all.take(i as int).to_multiset(),
            projects_model(out@) == sorted_by_key(all.take(i as int), key),
            key_sorted(projects_model(out@), key),
        decreases v.len() - i,
    {
        let x = v[i].duplicate();
        let ghost before = projects_model(out@);
        let mut k: usize = 0;
        while k < out.len() && !matches!(out[k].root.compare(&x.root), Order::Greater)
            invariant
                k <= out.len(),
                key == root_key(),
                before == projects_model(out@),
                forall|m: int| 0 <= m < k ==> path_order(#[trigger] key(before[m]), key(x@)) != Order::Greater,
                first_key_after(before, key, x@, 0) == first_key_after(before, key, x@, k as int),
            decreases out.len() - k,
        {
            assert(key(before[k as int]) == out@[k as int].root@);
            k = k + 1;
        }
        proof {
            if k < out.len() {
                assert(key(before[k as int]) == out@[k as int].root@);
            }
            lemma_insert_keeps_sorted(before, key, x@, k as int);
        }
        out.insert(k, x);
        let ghost after = projects_model(out@);
        proof {
            assert(after =~= before.insert(k as int, x@));
            vstd::seq_lib::to_multiset_insert(before, k as int, x@);
            assert(all.take(i + 1) =~= all.take(i as int).push(all[i as int]));
            assert(all.take(i + 1).drop_last() =~= all.take(i as int));
            vstd::seq_lib::to_multiset_build(all.take(i as int), all[i as int]);
        }
        i = i + 1;
    }
    proof {
        assert(all.take(v.len() as int) =~= all);
    }
    out
}

/// Sorts path problems by path, keeping problems with the same path in order.
fn sort_errors(v: Vec<PathError>) -> (r: Vec<PathError>)
    ensures
        errors_model(r@) == sorted_by_key(errors_model(v@), error_key()),
        errors_model(r@).to_multiset() == errors_model(v@).to_multiset(),
        key_sorted(errors_model(r@), error_key()),
{
    let mut out: Vec<PathError> = Vec::new();
    let ghost all = errors_model(v@);
    let ghost key = error_key();
    let mut i: usize = 0;
    proof {
        assert(errors_model(out@) =~= all.take(0));
        assert(sorted_by_key(all.take(0), key) =~= all.take(0));
    }
    while i < v.len()
        invariant
            i <= v.len(),
            all == errors_model(v@),
            key == error_key(),
            errors_model(out@).to_multiset() == all.take(i as int).to_multiset(),
            errors_model(out@) == sorted_by_key(all.take(i as int), key),
            key_sorted(errors_model(out@), key),
        decreases v.len() - i,
    {
        let x = PathError { path: v[i].path.duplicate(), message: v[i].message.clone() };
        let ghost before = errors_model(out@);
        let mut k: usize = 0;
        while k < out.len() && !matches!(out[k].path.compare(&x.path), Order::Greater)
            invariant
                k <= out.len(),
                key == error_key(),
                before == errors_model(out@),
                forall|m: int| 0 <= m < k ==> path_order(#[trigger] key(before[m]), key(x@)) != Order::Greater,
                first_key_after(before, key, x@, 0) == first_key_after(before, key, x@, k as int),
            decreases out.len() - k,
        {
            assert(key(before[k as int]) == out@[k as int].path@);
            k = k + 1;
        }
        proof {
            if k < out.len() {
                assert(key(before[k as int]) == out@[k as int].path@);
            }
            lemma_insert_keeps_sorted(before, key, x@, k as int);
        }
        out.insert(k, x);
        let ghost after = errors_model(out@);
        proof {
            assert(after =~= before.insert(k as int, x@));
            vstd::seq_lib::to_multiset_insert(before, k as int, x@);
            assert(all.take(i + 1) =~= all.take(i as int).push(all[i as int]));
            assert(all.take(i + 1).drop_last() =~= all.take(i as int));
            vstd::seq_lib::to_multiset_build(all.take(i as int), all[i as int]);
        }
        i = i + 1;
    }
    proof {
        assert(all.take(v.len() as int) =~= all);
    }
    out
}

/// Puts what a scan found in order for reporting: projects by root and
/// problems by path, each kept in scan order among equals.
pub fn sort_discovery(result: DiscoveryResult) -> (r: DiscoveryResult)
    ensures
        projects_model(r.projects@) == sorted_by_key(projects_model(result.projects@), root_key()),
        errors_model(r.errors@) == sorted_by_key(errors_model(result.errors@), error_key()),
        projects_model(r.projects@).to_multiset() == projects_model(result.projects@).to_multiset(),
        errors_model(r.errors@).to_multiset() == errors_model(result.errors@).to_multiset(),
        key_sorted(projects_model(r.projects@), root_key()),
        key_sorted(errors_model(r.errors@), error_key()),
{
    let DiscoveryResult { projects, errors } = result;
    DiscoveryResult { projects: sort_projects(projects), errors: sort_errors(errors) }
}

} // verus!
