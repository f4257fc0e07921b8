use yart::delphi::LpiUpdater;
use yart::files::{extension_matches, keep_if_changed};
use yart::rust::cargo_changes;
use std::path::PathBuf;
use yart::delphi::{ensure_final_newline, process_str};
use yart::files::{changed_contents, extension_equals, has_extension, RootFileFinderByExt};
use yart::rust::{
    get_toml_key_value, process_cargo_lock, process_cargo_toml, CargoTomlContentProcessor,
};
use yart::SemVer;

#[test]
fn cargo_toml_scenario() {
    let input = "[package]\nname = \"x\"\nversion = \"0.1.0\"\n";
    assert_eq!(
        process_cargo_toml(input, SemVer::new(1, 0, 0)),
        "[package]\nname = \"x\"\nversion = \"1.0.0\"\n"
    );
}

#[test]
fn cargo_toml_leaves_other_sections() {
    let input = "version = \"9\"\n[package]\nversion   =\"0.1.0\"\n[dependencies]\nversion = \"2\"\n[package]\nversion = \"3\"";
    assert_eq!(
        process_cargo_toml(input, SemVer::new(1, 2, 3)),
        "version = \"9\"\n[package]\nversion = \"1.2.3\"\n[dependencies]\nversion = \"2\"\n[package]\nversion = \"3\"\n"
    );
}

#[test]
fn cargo_toml_normalises_newlines() {
    let input = "[package]\r\nname = \"x\"\r\n";
    assert_eq!(
        process_cargo_toml(input, SemVer::new(1, 0, 0)),
        "[package]\nname = \"x\"\n"
    );
    assert_eq!(process_cargo_toml("", SemVer::new(1, 0, 0)), "");
}

#[test]
fn cargo_lock_rewrites_only_first_version_after_name() {
    let input = "[[package]]\nname = \"a\"\nversion = \"1\"\n[[package]]\nversion = \"2\"\nname = \"b\"\nversion = \"3\"\nversion = \"4\"\n";
    assert_eq!(
        process_cargo_lock(input, "\"b\"", SemVer::new(5, 6, 7)),
        "[[package]]\nname = \"a\"\nversion = \"1\"\n[[package]]\nversion = \"2\"\nname = \"b\"\nversion = \"5.6.7\"\nversion = \"4\"\n"
    );
    assert_eq!(
        process_cargo_lock(input, "b", SemVer::new(5, 6, 7)),
        input
    );
}

#[test]
fn toml_key_values_keep_quotes() {
    assert_eq!(get_toml_key_value("name =  \"x\"", "name"), Some("\"x\""));
    assert_eq!(get_toml_key_value("named = 1", "name"), None);
    assert_eq!(get_toml_key_value("", "name"), None);
}

#[test]
fn unchanged_contents_are_dropped() {
    let processor = CargoTomlContentProcessor {};
    let same = "[package]\nversion = \"1.0.0\"\n";
    assert!(changed_contents(&processor, same, SemVer::new(1, 0, 0)).unwrap().is_none());
    assert_eq!(
        changed_contents(&processor, same, SemVer::new(1, 0, 1)).unwrap(),
        Some("[package]\nversion = \"1.0.1\"\n".to_string())
    );
}

#[test]
fn extensions_ignore_ascii_case() {
    assert!(has_extension(&PathBuf::from("dir/a.VBP"), "vbp"));
    assert!(!has_extension(&PathBuf::from("dir/a.vbpx"), "vbp"));
    assert!(!has_extension(&PathBuf::from("dir/vbp"), "vbp"));
    assert!(extension_equals("Lpi", "lPI"));
    assert!(RootFileFinderByExt::new("lpi").accepts(&PathBuf::from("x.LPI")));
}

#[test]
fn markup_scenario_only_major_present() {
    let input = r#"<?xml version="1.0" encoding="UTF-8"?>
<CONFIG>
  <ProjectOptions>
    <VersionInfo>
      <MajorVersionNr Value="1"/>
    </VersionInfo>
  </ProjectOptions>
</CONFIG>
"#;
    let expected = r#"<?xml version="1.0" encoding="UTF-8"?>
<CONFIG>
  <ProjectOptions>
    <VersionInfo>
      <MajorVersionNr Value="2" />
      <MinorVersionNr Value="3" />
      <RevisionNr Value="4" />
    </VersionInfo>
  </ProjectOptions>
</CONFIG>
"#;
    assert_eq!(process_str(input, SemVer::new(2, 3, 4)).unwrap(), expected);
}

#[test]
fn markup_inserts_missing_fields_after_minor() {
    let input = r#"<?xml version="1.0" encoding="UTF-8"?>
<CONFIG><ProjectOptions><VersionInfo><MinorVersionNr Value="1"/></VersionInfo></ProjectOptions></CONFIG>"#;
    let expected = r#"<?xml version="1.0" encoding="UTF-8"?>
<CONFIG>
  <ProjectOptions>
    <VersionInfo>
      <MinorVersionNr Value="6" />
      <MajorVersionNr Value="5" />
      <RevisionNr Value="7" />
    </VersionInfo>
  </ProjectOptions>
</CONFIG>
"#;
    assert_eq!(process_str(input, SemVer::new(5, 6, 7)).unwrap(), expected);
}

#[test]
fn markup_processing_twice_is_processing_once() {
    let input = r#"<?xml version="1.0" encoding="UTF-8"?>
<CONFIG>
  <!-- a comment -->
  <ProjectOptions>
    <VersionInfo>
      <RevisionNr Value="9" Other="x"/>
      <BuildNr Value="2"/>
    </VersionInfo>
  </ProjectOptions>
</CONFIG>"#;
    let once = process_str(input, SemVer::new(1, 2, 3)).unwrap();
    let twice = process_str(&once, SemVer::new(1, 2, 3)).unwrap();
    assert_eq!(once, twice);
    assert!(once.contains(r#"<RevisionNr Value="3" Other="x" />"#));
}

#[test]
fn malformed_markup_is_a_read_error() {
    assert!(matches!(
        process_str("<CONFIG><a></CONFIG>", SemVer::new(1, 0, 0)),
        Err(yart::xml_util::XmlError::ReadError(_))
    ));
}

#[test]
fn final_newline_is_added_once() {
    assert_eq!(ensure_final_newline("a".to_string()), "a\n");
    assert_eq!(ensure_final_newline("a\n".to_string()), "a\n");
    assert_eq!(ensure_final_newline(String::new()), "\n");
}

#[test]
fn empty_inputs() {
    assert_eq!(yart::vb6::set_vbp_version("", SemVer::new(1, 2, 3)), "");
    assert_eq!(process_cargo_lock("", "\"x\"", SemVer::new(1, 2, 3)), "");
    assert_eq!(yart::tags::find_biggest_tag(""), None);
    assert_eq!(yart::rust::get_package_name_from_cargo_toml(""), None);
    assert!(yart::vb6::project_reference_segments("").is_empty());
}

#[test]
fn package_name_stops_at_next_section() {
    assert_eq!(
        yart::rust::get_package_name_from_cargo_toml("[package]\nversion = \"1\"\n[lib]\nname = \"l\"\n"),
        None
    );
    assert_eq!(
        yart::rust::get_package_name_from_cargo_toml("name = \"top\"\n[package]\nname=\"p\"\n"),
        Some("\"p\"")
    );
}

#[test]
fn markup_errors_become_update_errors() {
    let err = process_str("<a>", SemVer::new(1, 0, 0)).unwrap_err();
    assert!(matches!(
        yart::UpdateError::new_boxing_other(err),
        yart::UpdateError::Other(yart::xml_util::XmlError::ReadError(_))
    ));
}

#[test]
fn cargo_changes_keeps_only_changed_texts() {
    let toml = "[package]\nname = \"y\"\nversion = \"1.0.0\"\n";
    let lock = "[[package]]\nname = \"y\"\nversion = \"0.9.0\"\n";
    let (t, l) = cargo_changes(toml, Some(lock), SemVer::new(1, 0, 0));
    assert_eq!(t, None);
    assert_eq!(l, Some("[[package]]\nname = \"y\"\nversion = \"1.0.0\"\n".to_string()));
    let (t, l) = cargo_changes(toml, None, SemVer::new(2, 0, 0));
    assert_eq!(t, Some("[package]\nname = \"y\"\nversion = \"2.0.0\"\n".to_string()));
    assert_eq!(l, None);
    let (_, l) = cargo_changes("[package]\nversion = \"1\"\n", Some(lock), SemVer::new(2, 0, 0));
    assert_eq!(l, None);
}

#[test]
fn keep_if_changed_compares_verbatim() {
    assert_eq!(keep_if_changed("a\n", "a\n".to_string()), None);
    assert_eq!(keep_if_changed("a\r\n", "a\n".to_string()), Some("a\n".to_string()));
}

#[test]
fn extension_matching() {
    assert!(extension_matches(Some("VbG"), "vbg"));
    assert!(!extension_matches(None, "vbg"));
    assert!(!extension_matches(Some(""), "vbg"));
}

#[test]
fn processing_failures_are_errors_of_changed_contents() {
    assert!(changed_contents(&LpiUpdater {}, "<a>", SemVer::new(1, 0, 0)).is_err());
}
