use canopy::codegen::manifest::stamp;

const MANIFEST: &str = "\
[package]
publish = true
name = \"bes-canopy-api\"
version = \"0.0.0\"
edition = \"2024\"

[dependencies]
serde_json = \"1.0.150\"
version = \"not-a-real-key\"
";

#[test]
fn stamps_the_package_version() {
    let out = stamp(MANIFEST, "1.2.3").unwrap();
    assert!(out.contains("version = \"1.2.3\"\nedition"));
}

#[test]
fn leaves_dependency_versions_alone() {
    let out = stamp(MANIFEST, "1.2.3").unwrap();
    assert!(out.contains("serde_json = \"1.0.150\""));
    // A `version` key in a later table is not the package's version, even
    // though it matches the same pattern.
    assert!(out.contains("version = \"not-a-real-key\""));
}

#[test]
fn is_idempotent() {
    let once = stamp(MANIFEST, "1.2.3").unwrap();
    assert_eq!(stamp(&once, "1.2.3").unwrap(), once);
}

#[test]
fn stamping_the_same_version_changes_nothing() {
    assert_eq!(stamp(MANIFEST, "0.0.0").unwrap(), MANIFEST);
}

#[test]
fn refuses_a_manifest_with_no_package_version() {
    let err = stamp("[package]\nname = \"x\"\n", "1.0.0").unwrap_err();
    assert!(err.contains("declares no version"), "{err}");
}

#[test]
fn refuses_a_manifest_with_no_package_section() {
    let err = stamp("[workspace]\nmembers = []\n", "1.0.0").unwrap_err();
    assert!(err.contains("no [package] section"), "{err}");
}

#[test]
fn a_package_section_at_the_end_of_the_file_is_still_found() {
    let text = "[dependencies]\nserde = \"1\"\n\n[package]\nversion = \"0.0.0\"\n";
    let out = stamp(text, "2.0.0").unwrap();
    assert!(out.contains("[package]\nversion = \"2.0.0\""), "{out}");
    assert!(out.contains("serde = \"1\""), "{out}");
}

#[test]
fn a_version_line_at_the_end_of_the_text_is_replaced_to_the_end() {
    let out = stamp("[package]\nversion = \"0.1.0\"", "0.2.0").unwrap();
    assert_eq!(out, "[package]\nversion = \"0.2.0\"");
}

#[test]
fn a_version_with_a_quote_is_written_escaped() {
    let out = stamp("[package]\nversion = \"0\"\n", "1\"2").unwrap();
    assert_eq!(out, "[package]\nversion = \"1\\\"2\"\n");
}
