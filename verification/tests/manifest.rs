use cargo_clean_global::manifest::{is_cargo_manifest_section, manifest_text_looks_like};

#[test]
fn detects_package_section() {
    assert!(is_cargo_manifest_section("[package]"));
    assert!(is_cargo_manifest_section(" [workspace] "));
    assert!(is_cargo_manifest_section("[package] # comment"));
    assert!(!is_cargo_manifest_section("[dependencies]"));
    assert!(!is_cargo_manifest_section("# [package]"));
}

#[test]
fn section_line_edge_cases() {
    assert!(is_cargo_manifest_section("\t[workspace]\r"));
    assert!(!is_cargo_manifest_section("[ package ]"));
    assert!(!is_cargo_manifest_section("[package.metadata]"));
    assert!(!is_cargo_manifest_section("[[package]]"));
    assert!(!is_cargo_manifest_section(""));
}

#[test]
fn manifest_text_needs_a_package_or_workspace_line() {
    assert!(manifest_text_looks_like("[package]\nname = \"demo\"\nversion = \"0.1.0\"\n"));
    assert!(manifest_text_looks_like("[dependencies]\r\nserde = \"1\"\r\n[workspace]\r\n"));
    assert!(manifest_text_looks_like("# generated\n\n  [package] # main\n"));
    assert!(!manifest_text_looks_like(""));
    assert!(!manifest_text_looks_like("\n\n"));
    assert!(!manifest_text_looks_like("[dependencies]\nfoo = \"[package]\"\n"));
    assert!(!manifest_text_looks_like("name = \"x\" # [package]"));
}

#[test]
fn manifest_text_agrees_with_line_by_line_check() {
    let samples = [
        "a\n[package]",
        "[package]\r",
        "x\r\n[workspace]\r\ny",
        "[dependencies]\n",
        "\r\n\r\n",
    ];
    for text in samples {
        let expected = text.lines().any(is_cargo_manifest_section);
        assert_eq!(manifest_text_looks_like(text), expected, "{text:?}");
    }
}
