//! Where a project's build output goes: `build.target-dir` from the
//! project's `.cargo` directory, else from Cargo's home, else `target`
//! under the project root.

use vstd::prelude::*;
use vstd::utf8::encode_utf8;

use crate::path::{has_root, join_bytes, parent_bytes, paths_model, FsPath};
use crate::text::{chars_of, push_text, string_from_chars, trim, trim_chars};
use crate::types::{path_error, text_string, CargoProject, ErrorModel, PathError};

verus! {

/// What `toml::from_str` reads from a Cargo config: `Ok(Some(text))` when
/// the document has a `build` table whose `target-dir` is a string,
/// `Ok(None)` when it has none, `Err(message)` when it is not valid TOML.
pub uninterp spec fn cargo_config_target_dir(content: Seq<char>) -> Result<Option<Seq<char>>, Seq<char>>;

/// A parse result as values.
pub open spec fn parsed_model(r: Result<Option<String>, String>) -> Result<Option<Seq<char>>, Seq<char>> {
    match r {
        Ok(Some(t)) => Ok(Some(t@)),
        Ok(None) => Ok(None),
        Err(m) => Err(m@),
    }
}

/// Calls `toml::from_str` on a Cargo config and looks up `build.target-dir`
/// in the parsed document (`Value::get`, `Value::as_table`,
/// `Value::as_str`). Claims only that the result is the named reading of
/// the text; the TOML grammar and the wording of parse errors are left to
/// the name.
#[verifier::external_body]
fn parse_config_target_dir(content: &str) -> (r: Result<Option<String>, String>)
    ensures
        parsed_model(r) == cargo_config_target_dir(content@),
{
    match toml::from_str::<toml::Value>(content) {
        Ok(parsed) => Ok(
            parsed.get("build").and_then(toml::Value::as_table).and_then(
                |build| build.get("target-dir"),
            ).and_then(toml::Value::as_str).map(String::from),
        ),
        Err(error) => Err(format!("{error}")),
    }
}

/// The bytes of a text.
pub open spec fn text_bytes(s: Seq<char>) -> Seq<u8> {
    encode_utf8(s)
}

/// An error about a path.
pub open spec fn error_at(path: Seq<u8>, message: Seq<char>) -> ErrorModel {
    ErrorModel { path, message }
}

/// The directory a config file's relative paths start from: the parent of
/// the `.cargo` directory that holds it.
pub open spec fn base_dir(config_path: Seq<u8>) -> Result<Seq<u8>, ErrorModel> {
    match parent_bytes(config_path) {
        None => Err(error_at(config_path, "failed to determine Cargo config directory"@)),
        Some(dir) => match parent_bytes(dir) {
            None => Err(error_at(config_path, "failed to determine Cargo config base directory"@)),
            Some(base) => Ok(base),
        },
    }
}

/// A configured path: as it is when absolute, else joined onto the base
/// directory.
pub open spec fn config_relative(config_path: Seq<u8>, path: Seq<u8>) -> Result<Seq<u8>, ErrorModel> {
    if has_root(path) {
        Ok(path)
    } else {
        match base_dir(config_path) {
            Ok(base) => Ok(join_bytes(base, path)),
            Err(e) => Err(e),
        }
    }
}

/// The target directory a config file's reading gives.
pub open spec fn file_target_dir(config_path: Seq<u8>, parsed: Result<Option<Seq<char>>, Seq<char>>) -> Result<Option<Seq<u8>>, ErrorModel> {
    match parsed {
        Err(m) => Err(error_at(config_path, "failed to parse Cargo config: "@ + m)),
        Ok(None) => Ok(None),
        Ok(Some(t)) => if trim(t).len() == 0 {
            Err(error_at(config_path, "build.target-dir is configured but empty"@))
        } else {
            match config_relative(config_path, text_bytes(t)) {
                Ok(p) => Ok(Some(p)),
                Err(e) => Err(e),
            }
        },
    }
}

/// A configured target as values.
pub open spec fn configured_model(r: Result<Option<FsPath>, PathError>) -> Result<Option<Seq<u8>>, ErrorModel> {
    match r {
        Ok(Some(p)) => Ok(Some(p@)),
        Ok(None) => Ok(None),
        Err(e) => Err(e@),
    }
}

fn message_with(lead: &str, detail: &String) -> (r: String)
    ensures
        r@ == lead@ + detail@,
{
    let mut out: Vec<char> = Vec::new();
    push_text(&mut out, lead);
    push_text(&mut out, detail.as_str());
    string_from_chars(&out)
}

/// The directory relative paths in a config file start from.
pub fn config_base_dir(config_path: &FsPath) -> (r: Result<FsPath, PathError>)
    ensures
        match r {
            Ok(p) => base_dir(config_path@) == Ok::<Seq<u8>, ErrorModel>(p@),
            Err(e) => base_dir(config_path@) == Err::<Seq<u8>, ErrorModel>(e@),
        },
{
    match config_path.parent() {
        None => Err(path_error(config_path.duplicate(), text_string("failed to determine Cargo config directory"))),
        Some(dir) => match dir.parent() {
            None => Err(
                path_error(config_path.duplicate(), text_string("failed to determine Cargo config base directory")),
            ),
            Some(base) => Ok(base),
        },
    }
}

/// A path from a config file: absolute as it is, relative from the config's
/// base directory.
pub fn resolve_config_relative_path(config_path: &FsPath, path: &FsPath) -> (r: Result<FsPath, PathError>)
    ensures
        match r {
            Ok(p) => config_relative(config_path@, path@) == Ok::<Seq<u8>, ErrorModel>(p@),
            Err(e) => config_relative(config_path@, path@) == Err::<Seq<u8>, ErrorModel>(e@),
        },
{
    if path.is_absolute() {
        return Ok(path.duplicate());
    }
    let base = config_base_dir(config_path)?;
    Ok(base.join(path))
}

/// The target directory that a config file's reading gives: none when the
/// file sets no `build.target-dir`, an error when the file is not TOML or
/// the setting is blank.
pub fn target_dir_from_config_text(config_path: &FsPath, parsed: Result<Option<String>, String>) -> (r: Result<Option<FsPath>, PathError>)
    ensures
        configured_model(r) == file_target_dir(config_path@, parsed_model(parsed)),
{
    match parsed {
        Err(m) => Err(path_error(config_path.duplicate(), message_with("failed to parse Cargo config: ", &m))),
        Ok(None) => Ok(None),
        Ok(Some(t)) => {
            let chars = chars_of(t.as_str());
            let trimmed = trim_chars(&chars);
            if trimmed.len() == 0 {
                return Err(
                    path_error(config_path.duplicate(), text_string("build.target-dir is configured but empty")),
                );
            }
            let configured = FsPath::from_text(t.as_str());
            match resolve_config_relative_path(config_path, &configured) {
                Ok(p) => Ok(Some(p)),
                Err(e) => Err(e),
            }
        },
    }
}

/// The target directory a config file sets, read from the file's text.
pub fn read_configured_target_dir_from_file(config_path: &FsPath, content: &str) -> (r: Result<Option<FsPath>, PathError>)
    ensures
        configured_model(r) == file_target_dir(config_path@, cargo_config_target_dir(content@)),
{
    let parsed = parse_config_target_dir(content);
    target_dir_from_config_text(config_path, parsed)
}


/// What `fs::metadata` found at a candidate config path.
pub enum ConfigFileKind {
    /// Nothing is there.
    Missing,
    /// It could not be inspected; the error's text.
    Unreadable(String),
    /// Something other than a regular file.
    NotFile,
    /// A regular file.
    File,
}

/// What was found at a config path, as values.
pub enum FileKindModel {
    Missing,
    Unreadable(Seq<char>),
    NotFile,
    File,
}

impl View for ConfigFileKind {
    type V = FileKindModel;

    open spec fn view(&self) -> FileKindModel {
        match self {
            ConfigFileKind::Missing => FileKindModel::Missing,
            ConfigFileKind::Unreadable(m) => FileKindModel::Unreadable(m@),
            ConfigFileKind::NotFile => FileKindModel::NotFile,
            ConfigFileKind::File => FileKindModel::File,
        }
    }
}

/// Where a config lookup stands.
pub enum LookupStage {
    /// Inspect this candidate config file.
    Inspect(FsPath),
    /// Read this config file.
    Read(FsPath),
    /// The configured target directory, if any, or why it is unknown.
    Done(Result<Option<FsPath>, PathError>),
}

/// A lookup stage as values.
pub enum LookupStageModel {
    Inspect(Seq<u8>),
    Read(Seq<u8>),
    Done(Result<Option<Seq<u8>>, ErrorModel>),
}

impl View for LookupStage {
    type V = LookupStageModel;

    open spec fn view(&self) -> LookupStageModel {
        match self {
            LookupStage::Inspect(p) => LookupStageModel::Inspect(p@),
            LookupStage::Read(p) => LookupStageModel::Read(p@),
            LookupStage::Done(r) => LookupStageModel::Done(configured_model(*r)),
        }
    }
}

/// The search for `build.target-dir` through config directories in order:
/// in each, the legacy `config` file is tried before `config.toml`, and the
/// first one that exists is the one read.
pub struct ConfigLookup {
    pub dirs: Vec<FsPath>,
    pub dir_index: usize,
    pub file_index: usize,
    pub stage: LookupStage,
}

/// A config lookup as values.
pub struct LookupModel {
    pub dirs: Seq<Seq<u8>>,
    pub dir_index: nat,
    pub file_index: nat,
    pub stage: LookupStageModel,
}

impl View for ConfigLookup {
    type V = LookupModel;

    open spec fn view(&self) -> LookupModel {
        LookupModel {
            dirs: paths_model(self.dirs@),
            dir_index: self.dir_index as nat,
            file_index: self.file_index as nat,
            stage: self.stage@,
        }
    }
}

/// The config file names of a directory, in the order they are tried.
pub open spec fn config_file_name(f: nat) -> Seq<char> {
    if f == 0 {
        "config"@
    } else {
        "config.toml"@
    }
}

/// Candidate `f` in config directory `dir`.
pub open spec fn candidate(dir: Seq<u8>, f: nat) -> Seq<u8> {
    join_bytes(dir, text_bytes(config_file_name(f)))
}

/// The lookup is consistent: it works on a candidate of the current
/// directory.
pub open spec fn lookup_well_formed(m: LookupModel) -> bool {
    &&& m.dir_index < m.dirs.len()
    &&& m.file_index < 2
    &&& match m.stage {
        LookupStageModel::Inspect(p) => p == candidate(m.dirs[m.dir_index as int], m.file_index),
        LookupStageModel::Read(p) => p == candidate(m.dirs[m.dir_index as int], m.file_index),
        LookupStageModel::Done(_) => true,
    }
}

/// The current directory sets no target directory: go on with the next
/// one, or end with none.
pub open spec fn next_directory(m: LookupModel) -> LookupModel {
    if m.dir_index + 1 < m.dirs.len() {
        LookupModel {
            dir_index: m.dir_index + 1,
            file_index: 0,
            stage: LookupStageModel::Inspect(candidate(m.dirs[m.dir_index + 1 as int], 0)),
            ..m
        }
    } else {
        LookupModel { file_index: 0, stage: LookupStageModel::Done(Ok(None)), ..m }
    }
}

/// The lookup after a candidate was inspected.
pub open spec fn after_inspect(m: LookupModel, k: FileKindModel) -> LookupModel {
    match m.stage {
        LookupStageModel::Inspect(p) => match k {
            FileKindModel::Missing => if m.file_index == 0 {
                LookupModel {
                    file_index: 1,
                    stage: LookupStageModel::Inspect(candidate(m.dirs[m.dir_index as int], 1)),
                    ..m
                }
            } else {
                next_directory(m)
            },
            FileKindModel::Unreadable(e) => LookupModel {
                stage: LookupStageModel::Done(Err(error_at(p, "failed to inspect Cargo config: "@ + e))),
                ..m
            },
            FileKindModel::NotFile => LookupModel {
                stage: LookupStageModel::Done(
                    Err(error_at(p, "Cargo config exists but is not a regular file"@)),
                ),
                ..m
            },
            FileKindModel::File => LookupModel { stage: LookupStageModel::Read(p), ..m },
        },
        _ => m,
    }
}

/// The lookup after a config file was read.
pub open spec fn after_read(m: LookupModel, r: Result<Seq<char>, Seq<char>>) -> LookupModel {
    match m.stage {
        LookupStageModel::Read(p) => match r {
            Err(e) => LookupModel {
                stage: LookupStageModel::Done(Err(error_at(p, "failed to read Cargo config: "@ + e))),
                ..m
            },
            Ok(content) => match file_target_dir(p, cargo_config_target_dir(content)) {
                Ok(None) => next_directory(m),
                other => LookupModel { stage: LookupStageModel::Done(other), ..m },
            },
        },
        _ => m,
    }
}

/// A read result as values.
pub open spec fn read_model(r: Result<String, String>) -> Result<Seq<char>, Seq<char>> {
    match r {
        Ok(c) => Ok(c@),
        Err(e) => Err(e@),
    }
}

impl ConfigLookup {
    /// Starts a lookup through these directories.
    pub fn through(dirs: Vec<FsPath>) -> (r: ConfigLookup)
        requires
            dirs.len() > 0,
        ensures
            r@.dirs == paths_model(dirs@),
            r@.dir_index == 0,
            r@.file_index == 0,
            r@.stage == LookupStageModel::Inspect(candidate(paths_model(dirs@)[0], 0)),
            lookup_well_formed(r@),
    {
        let first = dirs[0].join_text("config");
        ConfigLookup { dirs, dir_index: 0, file_index: 0, stage: LookupStage::Inspect(first) }
    }

    fn move_to_next_directory(&mut self)
        requires
            lookup_well_formed(old(self)@),
        ensures
            final(self)@ == next_directory(old(self)@),
    {
        if self.dir_index < self.dirs.len() - 1 {
            self.dir_index = self.dir_index + 1;
            self.file_index = 0;
            let next = self.dirs[self.dir_index].join_text("config");
            self.stage = LookupStage::Inspect(next);
        } else {
            let none: Result<Option<FsPath>, PathError> = Ok(None);
            self.file_index = 0;
            self.stage = LookupStage::Done(none);
        }
    }

    /// Whether the lookup has its answer.
    pub fn is_done(&self) -> (r: bool)
        ensures
            r == (self@.stage is Done),
    {
        match self.stage {
            LookupStage::Done(_) => true,
            _ => false,
        }
    }

    /// Takes in what is at the candidate path.
    pub fn inspected(&mut self, kind: ConfigFileKind)
        requires
            lookup_well_formed(old(self)@),
        ensures
            lookup_well_formed(final(self)@),
            final(self)@ == after_inspect(old(self)@, kind@),
    {
        let path = match &self.stage {
            LookupStage::Inspect(p) => p.duplicate(),
            _ => {
                return;
            },
        };
        match kind {
            ConfigFileKind::Missing => {
                if self.file_index == 0 {
                    self.file_index = 1;
                    let next = self.dirs[self.dir_index].join_text("config.toml");
                    self.stage = LookupStage::Inspect(next);
                } else {
                    self.move_to_next_directory();
                }
            },
            ConfigFileKind::Unreadable(e) => {
                let message = message_with("failed to inspect Cargo config: ", &e);
                self.stage = LookupStage::Done(Err(path_error(path, message)));
            },
            ConfigFileKind::NotFile => {
                let message = text_string("Cargo config exists but is not a regular file");
                self.stage = LookupStage::Done(Err(path_error(path, message)));
            },
            ConfigFileKind::File => {
                self.stage = LookupStage::Read(path);
            },
        }
    }

    /// Takes in the text of the config file, or the error reading it.
    pub fn read(&mut self, content: Result<String, String>)
        requires
            lookup_well_formed(old(self)@),
        ensures
            lookup_well_formed(final(self)@),
            final(self)@ == after_read(old(self)@, read_model(content)),
    {
        let path = match &self.stage {
            LookupStage::Read(p) => p.duplicate(),
            _ => {
                return;
            },
        };
        match content {
            Err(e) => {
                let message = message_with("failed to read Cargo config: ", &e);
                self.stage = LookupStage::Done(Err(path_error(path, message)));
            },
            Ok(text) => {
                let found = read_configured_target_dir_from_file(&path, text.as_str());
                match found {
                    Ok(None) => {
                        self.move_to_next_directory();
                    },
                    other => {
                        self.stage = LookupStage::Done(other);
                    },
                }
            },
        }
    }

    /// The answer, once the lookup is done.
    pub fn outcome(self) -> (r: Result<Option<FsPath>, PathError>)
        requires
            self@.stage is Done,
        ensures
            self@.stage == LookupStageModel::Done(configured_model(r)),
    {
        match self.stage {
            LookupStage::Done(r) => r,
            _ => {
                proof {
                    assert(false);
                }
                Ok(None)
            },
        }
    }
}

/// Starts looking for `build.target-dir` in one config directory.
pub fn read_configured_target_dir_from_config_dir(config_dir: &FsPath) -> (r: ConfigLookup)
    ensures
        r@.dirs == seq![config_dir@],
        r@.dir_index == 0,
        r@.file_index == 0,
        r@.stage == LookupStageModel::Inspect(candidate(config_dir@, 0)),
        lookup_well_formed(r@),
{
    let mut dirs: Vec<FsPath> = Vec::new();
    dirs.push(config_dir.duplicate());
    assert(paths_model(dirs@) =~= seq![config_dir@]);
    ConfigLookup::through(dirs)
}

/// The directories searched for a project's target directory: its own
/// `.cargo` directory, then Cargo's home when there is one.
pub open spec fn config_dirs(root: Seq<u8>, cargo_home: Option<Seq<u8>>) -> Seq<Seq<u8>> {
    let own = join_bytes(root, text_bytes(".cargo"@));
    match cargo_home {
        Some(h) => seq![own, h],
        None => seq![own],
    }
}

/// Starts looking for a project's configured target directory.
pub fn resolve_target_dir_from_configs(project: &CargoProject, cargo_home: Option<FsPath>) -> (r: ConfigLookup)
    ensures
        r@.dirs == config_dirs(
            project.root@,
            match cargo_home {
                Some(h) => Some(h@),
                None => None,
            },
        ),
        r@.dir_index == 0,
        r@.file_index == 0,
        r@.stage == LookupStageModel::Inspect(candidate(r@.dirs[0], 0)),
        lookup_well_formed(r@),
{
    let mut dirs: Vec<FsPath> = Vec::new();
    dirs.push(project.root.join_text(".cargo"));
    match cargo_home {
        Some(h) => {
            dirs.push(h);
        },
        None => {},
    }
    let ghost own = join_bytes(project.root@, text_bytes(".cargo"@));
    assert(paths_model(dirs@) =~= config_dirs(
        project.root@,
        match cargo_home {
            Some(h) => Some(h@),
            None => None,
        },
    ));
    ConfigLookup::through(dirs)
}

/// One step of a lookup, given what the file system holds: `kind` tells
/// what is at a path, `content` what reading a file gives.
pub open spec fn lookup_step(
    m: LookupModel,
    kind: spec_fn(Seq<u8>) -> FileKindModel,
    content: spec_fn(Seq<u8>) -> Result<Seq<char>, Seq<char>>,
) -> LookupModel {
    match m.stage {
        LookupStageModel::Inspect(p) => after_inspect(m, kind(p)),
        LookupStageModel::Read(p) => after_read(m, content(p)),
        LookupStageModel::Done(_) => m,
    }
}

/// The lookup after `n` steps.
pub open spec fn lookup_steps(
    m: LookupModel,
    kind: spec_fn(Seq<u8>) -> FileKindModel,
    content: spec_fn(Seq<u8>) -> Result<Seq<char>, Seq<char>>,
    n: nat,
) -> LookupModel
    decreases n,
{
    if n == 0 {
        m
    } else {
        lookup_steps(lookup_step(m, kind, content), kind, content, (n - 1) as nat)
    }
}

/// The answer a config file gives once found to be of this kind.
pub open spec fn file_outcome(
    path: Seq<u8>,
    k: FileKindModel,
    content: spec_fn(Seq<u8>) -> Result<Seq<char>, Seq<char>>,
) -> Result<Option<Seq<u8>>, ErrorModel> {
    match k {
        FileKindModel::Missing => Ok(None),
        FileKindModel::Unreadable(e) => Err(error_at(path, "failed to inspect Cargo config: "@ + e)),
        FileKindModel::NotFile => Err(error_at(path, "Cargo config exists but is not a regular file"@)),
        FileKindModel::File => match content(path) {
            Err(e) => Err(error_at(path, "failed to read Cargo config: "@ + e)),
            Ok(t) => file_target_dir(path, cargo_config_target_dir(t)),
        },
    }
}

/// What one config directory says: the legacy `config` file when anything
/// is there, else `config.toml` when anything is there, else nothing. Only
/// the two candidates in `dir` are looked at.
pub open spec fn dir_outcome(
    dir: Seq<u8>,
    kind: spec_fn(Seq<u8>) -> FileKindModel,
    content: spec_fn(Seq<u8>) -> Result<Seq<char>, Seq<char>>,
) -> Result<Option<Seq<u8>>, ErrorModel> {
    let first = candidate(dir, 0);
    let second = candidate(dir, 1);
    if kind(first) is Missing {
        file_outcome(second, kind(second), content)
    } else {
        file_outcome(first, kind(first), content)
    }
}

/// What a project's config directories say together: the project's own
/// `.cargo` answer when it sets a target directory or fails; otherwise
/// Cargo's home's answer, or nothing without a home.
pub open spec fn configs_outcome(
    root: Seq<u8>,
    cargo_home: Option<Seq<u8>>,
    kind: spec_fn(Seq<u8>) -> FileKindModel,
    content: spec_fn(Seq<u8>) -> Result<Seq<char>, Seq<char>>,
) -> Result<Option<Seq<u8>>, ErrorModel> {
    match dir_outcome(join_bytes(root, text_bytes(".cargo"@)), kind, content) {
        Ok(None) => match cargo_home {
            None => Ok(None),
            Some(h) => dir_outcome(h, kind, content),
        },
        other => other,
    }
}

/// A lookup that is done stays as it is.
proof fn lemma_done_stays(
    m: LookupModel,
    kind: spec_fn(Seq<u8>) -> FileKindModel,
    content: spec_fn(Seq<u8>) -> Result<Seq<char>, Seq<char>>,
    n: nat,
)
    requires
        m.stage is Done,
    ensures
        lookup_steps(m, kind, content, n) == m,
    decreases n,
{
    if n > 0 {
        lemma_done_stays(m, kind, content, (n - 1) as nat);
    }
}

/// How many steps the lookup spends on one directory.
pub open spec fn dir_steps(dir: Seq<u8>, kind: spec_fn(Seq<u8>) -> FileKindModel) -> nat {
    let first = candidate(dir, 0);
    let second = candidate(dir, 1);
    if kind(first) is Missing {
        if kind(second) is File {
            3
        } else {
            2
        }
    } else if kind(first) is File {
        2
    } else {
        1
    }
}

/// The lookup of one directory, started at its first candidate: when the
/// directory sets a target directory or fails, the lookup ends with that
/// answer; otherwise it moves on to the next directory after `dir_steps`
/// steps.
proof fn lemma_one_dir(
    m: LookupModel,
    kind: spec_fn(Seq<u8>) -> FileKindModel,
    content: spec_fn(Seq<u8>) -> Result<Seq<char>, Seq<char>>,
    n: nat,
)
    requires
        m.dir_index < m.dirs.len(),
        m.file_index == 0,
        m.stage == LookupStageModel::Inspect(candidate(m.dirs[m.dir_index as int], 0)),
        n >= 3,
    ensures
        ({
            let d = m.dirs[m.dir_index as int];
            let r = dir_outcome(d, kind, content);
            &&& r != Ok::<Option<Seq<u8>>, ErrorModel>(None) ==> lookup_steps(m, kind, content, n).stage
                == LookupStageModel::Done(r)
            &&& r == Ok::<Option<Seq<u8>>, ErrorModel>(None) ==> lookup_steps(m, kind, content, n)
                == lookup_steps(next_directory(m), kind, content, (n - dir_steps(d, kind)) as nat)
        }),
{
    let d = m.dirs[m.dir_index as int];
    let first = candidate(d, 0);
    let second = candidate(d, 1);
    let m1 = lookup_step(m, kind, content);
    assert(lookup_steps(m, kind, content, n) == lookup_steps(m1, kind, content, (n - 1) as nat));
    if kind(first) is Missing {
        let m2 = lookup_step(m1, kind, content);
        assert(m1.stage == LookupStageModel::Inspect(second));
        assert(lookup_steps(m1, kind, content, (n - 1) as nat) == lookup_steps(m2, kind, content, (n - 2) as nat));
        if kind(second) is File {
            let m3 = lookup_step(m2, kind, content);
            assert(m2.stage == LookupStageModel::Read(second));
            assert(lookup_steps(m2, kind, content, (n - 2) as nat) == lookup_steps(m3, kind, content, (n - 3) as nat));
            match content(second) {
                Err(_) => {
                    lemma_done_stays(m3, kind, content, (n - 3) as nat);
                },
                Ok(t) => {
                    match file_target_dir(second, cargo_config_target_dir(t)) {
                        Ok(None) => {
                            assert(m3 == next_directory(m2));
                            assert(next_directory(m2) == next_directory(m));
                        },
                        _ => {
                            lemma_done_stays(m3, kind, content, (n - 3) as nat);
                        },
                    }
                },
            }
        } else if kind(second) is Missing {
            assert(m2 == next_directory(m1));
            assert(next_directory(m1) == next_directory(m));
        } else {
            lemma_done_stays(m2, kind, content, (n - 2) as nat);
        }
    } else if kind(first) is File {
        let m2 = lookup_step(m1, kind, content);
        assert(m1.stage == LookupStageModel::Read(first));
        assert(lookup_steps(m1, kind, content, (n - 1) as nat) == lookup_steps(m2, kind, content, (n - 2) as nat));
        match content(first) {
            Err(_) => {
                lemma_done_stays(m2, kind, content, (n - 2) as nat);
            },
            Ok(t) => {
                match file_target_dir(first, cargo_config_target_dir(t)) {
                    Ok(None) => {
                        assert(m2 == next_directory(m1));
                        assert(next_directory(m1) == next_directory(m));
                    },
                    _ => {
                        lemma_done_stays(m2, kind, content, (n - 2) as nat);
                    },
                }
            },
        }
    } else {
        lemma_done_stays(m1, kind, content, (n - 1) as nat);
    }
}

/// The lookup of one config directory that
/// `read_configured_target_dir_from_config_dir` starts reaches, within
/// three steps, that directory's answer: the legacy `config` file when
/// anything is there, else `config.toml`, else nothing.
pub proof fn lemma_config_dir_lookup(
    dir: Seq<u8>,
    kind: spec_fn(Seq<u8>) -> FileKindModel,
    content: spec_fn(Seq<u8>) -> Result<Seq<char>, Seq<char>>,
)
    ensures
        ({
            let start = LookupModel {
                dirs: seq![dir],
                dir_index: 0,
                file_index: 0,
                stage: LookupStageModel::Inspect(candidate(dir, 0)),
            };
            lookup_steps(start, kind, content, 3).stage == LookupStageModel::Done(dir_outcome(dir, kind, content))
        }),
{
    let start = LookupModel {
        dirs: seq![dir],
        dir_index: 0,
        file_index: 0,
        stage: LookupStageModel::Inspect(candidate(dir, 0)),
    };
    lemma_one_dir(start, kind, content, 3);
    if dir_outcome(dir, kind, content) == Ok::<Option<Seq<u8>>, ErrorModel>(None) {
        let last = next_directory(start);
        assert(last.stage == LookupStageModel::Done(Ok(None)));
        lemma_done_stays(last, kind, content, (3 - dir_steps(dir, kind)) as nat);
    }
}

/// The order of the config lookup for a project: the project's own
/// `.cargo` directory is asked first, and when it sets a target directory
/// or fails that is the answer, Cargo's home never looked at; only when it
/// sets none is Cargo's home asked, and its answer (or nothing, without a
/// home) is the result. Within a directory the legacy `config` file wins
/// over `config.toml`. Six steps of the lookup that
/// `resolve_target_dir_from_configs` starts always reach this answer.
pub proof fn lemma_config_lookup_order(
    root: Seq<u8>,
    cargo_home: Option<Seq<u8>>,
    kind: spec_fn(Seq<u8>) -> FileKindModel,
    content: spec_fn(Seq<u8>) -> Result<Seq<char>, Seq<char>>,
)
    ensures
        ({
            let dirs = config_dirs(root, cargo_home);
            let start = LookupModel {
                dirs,
                dir_index: 0,
                file_index: 0,
                stage: LookupStageModel::Inspect(candidate(dirs[0], 0)),
            };
            lookup_steps(start, kind, content, 6).stage == LookupStageModel::Done(
                configs_outcome(root, cargo_home, kind, content),
            )
        }),
{
    let dirs = config_dirs(root, cargo_home);
    let start = LookupModel {
        dirs,
        dir_index: 0,
        file_index: 0,
        stage: LookupStageModel::Inspect(candidate(dirs[0], 0)),
    };
    let own = dirs[0];
    lemma_one_dir(start, kind, content, 6);
    if dir_outcome(own, kind, content) == Ok::<Option<Seq<u8>>, ErrorModel>(None) {
        let rest = (6 - dir_steps(own, kind)) as nat;
        let next = next_directory(start);
        match cargo_home {
            None => {
                assert(next.stage == LookupStageModel::Done(Ok(None)));
                lemma_done_stays(next, kind, content, rest);
            },
            Some(h) => {
                assert(next.dir_index == 1 && next.file_index == 0);
                assert(next.stage == LookupStageModel::Inspect(candidate(h, 0)));
                lemma_one_dir(next, kind, content, rest);
                if dir_outcome(h, kind, content) == Ok::<Option<Seq<u8>>, ErrorModel>(None) {
                    let last = next_directory(next);
                    assert(last.stage == LookupStageModel::Done(Ok(None)));
                    lemma_done_stays(last, kind, content, (rest - dir_steps(h, kind)) as nat);
                }
            },
        }
    }
}

/// The project's target directory: the configured one, else `target` under
/// the project root.
pub open spec fn target_dir_of(root: Seq<u8>, configured: Result<Option<Seq<u8>>, ErrorModel>) -> Result<Seq<u8>, ErrorModel> {
    match configured {
        Err(e) => Err(e),
        Ok(Some(t)) => Ok(t),
        Ok(None) => Ok(join_bytes(root, text_bytes("target"@))),
    }
}

/// A configured target directory is the project's target directory: when
/// the config lookup gives a directory, that directory is the answer,
/// whatever the project root; `target` under the root is used only when no
/// config sets one; a failed lookup's error is passed on unchanged.
pub proof fn lemma_configured_target_wins(root: Seq<u8>, t: Seq<u8>, e: ErrorModel)
    ensures
        target_dir_of(root, Ok(Some(t))) == Ok::<Seq<u8>, ErrorModel>(t),
        target_dir_of(root, Err(e)) == Err::<Seq<u8>, ErrorModel>(e),
        target_dir_of(root, Ok(None)) == Ok::<Seq<u8>, ErrorModel>(join_bytes(root, text_bytes("target"@))),
        t != join_bytes(root, text_bytes("target"@)) ==> target_dir_of(root, Ok(Some(t))) != target_dir_of(
            root,
            Ok(None),
        ),
{
}

/// The project's target directory, from what the config lookup found.
pub fn resolve_target_dir(project: &CargoProject, configured: Result<Option<FsPath>, PathError>) -> (r: Result<FsPath, PathError>)
    ensures
        match r {
            Ok(t) => target_dir_of(project.root@, configured_model(configured)) == Ok::<Seq<u8>, ErrorModel>(t@),
            Err(e) => target_dir_of(project.root@, configured_model(configured)) == Err::<Seq<u8>, ErrorModel>(e@),
        },
        configured matches Ok(Some(t)) ==> (r matches Ok(x) && x@ == t@),
        configured matches Ok(None) ==> (r matches Ok(x) && x@ == join_bytes(project.root@, text_bytes("target"@))),
        configured matches Err(e) ==> (r matches Err(x) && x@ == e@),
{
    match configured? {
        Some(t) => Ok(t),
        None => Ok(project.root.join_text("target")),
    }
}

/// Cargo's home directory: `CARGO_HOME` when set and not empty (a relative
/// value taken from the current directory), else `.cargo` in the user's
/// home.
pub open spec fn cargo_home_of(env_value: Option<Seq<u8>>, current_dir: Option<Seq<u8>>, home_dir: Option<Seq<u8>>) -> Option<Seq<u8>> {
    match env_value {
        Some(v) if v.len() > 0 => if has_root(v) {
            Some(v)
        } else {
            match current_dir {
                Some(c) => Some(join_bytes(c, v)),
                None => None,
            }
        },
        _ => match home_dir {
            Some(h) => Some(join_bytes(h, text_bytes(".cargo"@))),
            None => None,
        },
    }
}

/// An optional path as values.
pub open spec fn opt_path(p: Option<FsPath>) -> Option<Seq<u8>> {
    match p {
        Some(q) => Some(q@),
        None => None,
    }
}

/// Cargo's home directory, from the value of `CARGO_HOME`, the current
/// directory and the user's home directory.
pub fn cargo_home_dir(env_value: Option<FsPath>, current_dir: Option<FsPath>, home_dir: Option<FsPath>) -> (r: Option<FsPath>)
    ensures
        opt_path(r) == cargo_home_of(opt_path(env_value), opt_path(current_dir), opt_path(home_dir)),
{
    match env_value {
        Some(v) if v.bytes.len() > 0 => {
            if v.is_absolute() {
                Some(v)
            } else {
                match current_dir {
                    Some(c) => Some(c.join(&v)),
                    None => None,
                }
            }
        },
        _ => match home_dir {
            Some(h) => Some(h.join_text(".cargo")),
            None => None,
        },
    }
}

} // verus!
