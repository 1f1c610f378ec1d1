use cargo_clean_global::cli::{has_cargo_forwarded_subcommand, normalize_args};

fn args(list: &[&str]) -> Vec<Vec<u8>> {
    list.iter().map(|a| a.as_bytes().to_vec()).collect()
}

const MESSAGE: &str =
    "run this tool as `cargo clean-global`; direct `cargo-clean-global` invocation is not supported";

#[test]
fn strips_forwarded_hyphenated_subcommand_name() {
    let normalized = normalize_args(args(&["cargo-clean-global", "clean-global", "--dry-run"]), true, false)
        .expect("cargo should normalize the forwarded subcommand name");
    assert_eq!(normalized, args(&["cargo-clean-global", "--dry-run"]));
}

#[test]
fn rejects_direct_binary_invocation() {
    assert!(normalize_args(args(&["cargo-clean-global", "--dry-run"]), false, true).is_ok());
    assert_eq!(
        normalize_args(args(&["cargo-clean-global", "--dry-run"]), false, false),
        Err(MESSAGE)
    );
}

#[test]
fn rejects_spoofed_subcommand_name_without_cargo_env() {
    assert!(normalize_args(args(&["cargo-clean-global", "clean-global", "--dry-run"]), false, true).is_err());
    assert!(normalize_args(args(&["cargo-clean-global", "clean-global", "--dry-run"]), false, false).is_err());
}

#[test]
fn forwarded_name_must_be_second_and_exact() {
    assert!(!has_cargo_forwarded_subcommand(&args(&["cargo-clean-global"])));
    assert!(!has_cargo_forwarded_subcommand(&args(&["clean-global"])));
    assert!(!has_cargo_forwarded_subcommand(&args(&["x", "clean-globals"])));
    assert!(!has_cargo_forwarded_subcommand(&args(&["x", "--dry-run", "clean-global"])));
    assert!(has_cargo_forwarded_subcommand(&args(&["x", "clean-global"])));
    let mut odd = args(&["x"]);
    odd.push(vec![0xff, 0xfe]);
    assert!(!has_cargo_forwarded_subcommand(&odd));
}

#[test]
fn cargo_invocation_without_forwarded_name_follows_build_mode() {
    assert_eq!(
        normalize_args(args(&["cargo-clean-global", "--yes"]), true, true),
        Ok(args(&["cargo-clean-global", "--yes"]))
    );
    assert_eq!(normalize_args(args(&["cargo-clean-global", "--yes"]), true, false), Err(MESSAGE));
}
