use std::collections::HashMap;

use cargo_clean_global::config::{
    config_base_dir, read_configured_target_dir_from_config_dir, read_configured_target_dir_from_file,
    resolve_config_relative_path, resolve_target_dir, resolve_target_dir_from_configs,
    target_dir_from_config_text, ConfigFileKind, ConfigLookup, LookupStage,
};
use cargo_clean_global::path::FsPath;
use cargo_clean_global::types::{CargoProject, PathError};

fn p(s: &str) -> FsPath {
    FsPath::from_bytes(s.as_bytes().to_vec())
}

fn text(path: &FsPath) -> String {
    String::from_utf8(path.bytes.clone()).unwrap()
}

enum Node {
    File(&'static str),
    Dir,
}

/// Runs a lookup against an in-memory file system, recording every path
/// that was inspected.
fn run(mut lookup: ConfigLookup, fs: &HashMap<&str, Node>) -> (Result<Option<FsPath>, PathError>, Vec<String>) {
    let mut inspected = Vec::new();
    while !lookup.is_done() {
        match &lookup.stage {
            LookupStage::Inspect(path) => {
                let key = text(path);
                inspected.push(key.clone());
                let kind = match fs.get(key.as_str()) {
                    None => ConfigFileKind::Missing,
                    Some(Node::File(_)) => ConfigFileKind::File,
                    Some(Node::Dir) => ConfigFileKind::NotFile,
                };
                lookup.inspected(kind);
            }
            LookupStage::Read(path) => {
                let content = match fs.get(text(path).as_str()) {
                    Some(Node::File(c)) => Ok(c.to_string()),
                    _ => Err(String::from("No such file or directory (os error 2)")),
                };
                lookup.read(content);
            }
            LookupStage::Done(_) => unreachable!(),
        }
    }
    (lookup.outcome(), inspected)
}

#[test]
fn reads_target_dir_from_cargo_config() {
    let fs = HashMap::from([("/tmp/root/.cargo/config.toml", Node::File("[build]\ntarget-dir = \"build-output\"\n"))]);
    let (found, _) = run(read_configured_target_dir_from_config_dir(&p("/tmp/root/.cargo")), &fs);
    let target_dir = found.expect("config should parse").expect("target-dir should be present");
    assert_eq!(text(&target_dir), "/tmp/root/build-output");
}

#[test]
fn returns_none_when_target_dir_is_missing() {
    let fs = HashMap::from([("/tmp/root/.cargo/config.toml", Node::File("[build]\njobs = 4\n"))]);
    let (found, _) = run(read_configured_target_dir_from_config_dir(&p("/tmp/root/.cargo")), &fs);
    assert!(found.expect("config should parse").is_none());
}

#[test]
fn falls_back_to_cargo_home_when_project_has_no_target_dir() {
    let fs = HashMap::from([
        ("/base/project/Cargo.toml", Node::File("[package]\nname = \"demo\"\nversion = \"0.1.0\"\n")),
        ("/base/project/.cargo/config.toml", Node::File("[build]\njobs = 4\n")),
        ("/base/home/.cargo/config.toml", Node::File("[build]\ntarget-dir = \"shared-target\"\n")),
    ]);
    let project = CargoProject { root: p("/base/project"), manifest: p("/base/project/Cargo.toml") };
    let (found, _) = run(resolve_target_dir_from_configs(&project, Some(p("/base/home/.cargo"))), &fs);
    let target_dir = found.expect("resolution should succeed").expect("global target-dir should be used");
    assert_eq!(text(&target_dir), "/base/home/shared-target");
}

#[test]
fn prefers_legacy_config_file_over_config_toml() {
    let fs = HashMap::from([
        ("/tmp/root/.cargo/config", Node::File("[build]\ntarget-dir = \"legacy-output\"\n")),
        ("/tmp/root/.cargo/config.toml", Node::File("[build]\ntarget-dir = \"toml-output\"\n")),
    ]);
    let (found, inspected) = run(read_configured_target_dir_from_config_dir(&p("/tmp/root/.cargo")), &fs);
    let target_dir = found.expect("config should parse").expect("target-dir should be present");
    assert_eq!(text(&target_dir), "/tmp/root/legacy-output");
    assert_eq!(inspected, vec!["/tmp/root/.cargo/config"]);
}

#[test]
fn project_config_wins_over_cargo_home() {
    let fs = HashMap::from([
        ("/w/p/.cargo/config.toml", Node::File("[build]\ntarget-dir = \"/abs/out\"\n")),
        ("/home/.cargo/config.toml", Node::File("[build]\ntarget-dir = \"shared\"\n")),
    ]);
    let project = CargoProject { root: p("/w/p"), manifest: p("/w/p/Cargo.toml") };
    let (found, inspected) = run(resolve_target_dir_from_configs(&project, Some(p("/home/.cargo"))), &fs);
    assert_eq!(text(&found.unwrap().unwrap()), "/abs/out");
    assert_eq!(inspected, vec!["/w/p/.cargo/config", "/w/p/.cargo/config.toml"]);
}

#[test]
fn lookup_errors() {
    let project = CargoProject { root: p("/w/p"), manifest: p("/w/p/Cargo.toml") };
    let fs = HashMap::from([("/w/p/.cargo/config", Node::Dir)]);
    let (found, _) = run(resolve_target_dir_from_configs(&project, None), &fs);
    let error = found.unwrap_err();
    assert_eq!(text(&error.path), "/w/p/.cargo/config");
    assert_eq!(error.message, "Cargo config exists but is not a regular file");

    let fs = HashMap::from([("/w/p/.cargo/config.toml", Node::File("[build]\ntarget-dir = \"  \"\n"))]);
    let (found, _) = run(resolve_target_dir_from_configs(&project, None), &fs);
    assert_eq!(found.unwrap_err().message, "build.target-dir is configured but empty");

    let fs = HashMap::from([("/w/p/.cargo/config.toml", Node::File("[build\n"))]);
    let (found, _) = run(resolve_target_dir_from_configs(&project, None), &fs);
    assert!(found.unwrap_err().message.starts_with("failed to parse Cargo config: "));

    let mut lookup = read_configured_target_dir_from_config_dir(&p("/c"));
    lookup.inspected(ConfigFileKind::Unreadable(String::from("Permission denied (os error 13)")));
    let error = lookup.outcome().unwrap_err();
    assert_eq!(error.message, "failed to inspect Cargo config: Permission denied (os error 13)");

    let mut lookup = read_configured_target_dir_from_config_dir(&p("/c"));
    lookup.inspected(ConfigFileKind::File);
    lookup.read(Err(String::from("boom")));
    let error = lookup.outcome().unwrap_err();
    assert_eq!(text(&error.path), "/c/config");
    assert_eq!(error.message, "failed to read Cargo config: boom");
}

#[test]
fn no_config_anywhere_gives_default_target() {
    let project = CargoProject { root: p("/w/p"), manifest: p("/w/p/Cargo.toml") };
    let (found, inspected) = run(resolve_target_dir_from_configs(&project, Some(p("/h/.cargo"))), &HashMap::new());
    assert_eq!(inspected.len(), 4);
    let target = resolve_target_dir(&project, found).unwrap();
    assert_eq!(text(&target), "/w/p/target");
}

#[test]
fn relative_paths_start_from_the_config_base_directory() {
    assert_eq!(text(&config_base_dir(&p("/a/b/.cargo/config.toml")).unwrap()), "/a/b");
    assert_eq!(
        config_base_dir(&p("/config.toml")).unwrap_err().message,
        "failed to determine Cargo config base directory"
    );
    assert_eq!(config_base_dir(&p("/")).unwrap_err().message, "failed to determine Cargo config directory");
    assert_eq!(text(&resolve_config_relative_path(&p("/a/.cargo/config"), &p("/abs")).unwrap()), "/abs");
    assert_eq!(text(&resolve_config_relative_path(&p("/a/.cargo/config"), &p("out/x")).unwrap()), "/a/out/x");
}

#[test]
fn config_text_handling() {
    let config = p("/a/.cargo/config.toml");
    assert!(target_dir_from_config_text(&config, Ok(None)).unwrap().is_none());
    assert_eq!(
        target_dir_from_config_text(&config, Err(String::from("bad"))).unwrap_err().message,
        "failed to parse Cargo config: bad"
    );
    let found = read_configured_target_dir_from_file(&config, "[build]\ntarget-dir = 7\n").unwrap();
    assert!(found.is_none());
    let found = read_configured_target_dir_from_file(&config, "build = 1\n").unwrap();
    assert!(found.is_none());
    let found = read_configured_target_dir_from_file(&config, "[build]\ntarget-dir = \"t\"\n").unwrap();
    assert_eq!(text(&found.unwrap()), "/a/t");
}
