use cljrs_compiler::native_dep::{dep_line, package_name};

#[test]
fn reads_the_package_name() {
    let toml = "[package]\nname = \"cljrs-base64\"\nversion = \"0.1.0\"\n";
    assert_eq!(package_name(toml), Some("cljrs-base64"));
}

#[test]
fn ignores_a_name_key_in_another_section() {
    // `[lib]` legitimately carries its own `name`, and it is the crate
    // identifier — precisely the string we must NOT report as the package.
    let toml = "\
[package]
version = \"0.1.0\"

[lib]
name = \"cljrs_base64\"
";
    assert_eq!(package_name(toml), None);
}

#[test]
fn prefers_the_package_section_over_a_later_one() {
    let toml = "\
[package]
name = \"cljrs-blake3\"

[lib]
name = \"cljrs_blake3\"
";
    assert_eq!(package_name(toml), Some("cljrs-blake3"));
}

#[test]
fn skips_comments_and_tolerates_odd_spacing() {
    let toml = "\
# the manifest
[package]
   name   =   'single-quoted'   # trailing note
";
    assert_eq!(package_name(toml), Some("single-quoted"));
}

#[test]
fn a_double_bracket_section_is_not_package() {
    let toml = "[[bin]]\nname = \"a-binary\"\n";
    assert_eq!(package_name(toml), None);
}

#[test]
fn no_package_section_reads_as_unknown() {
    assert_eq!(package_name("[dependencies]\nserde = \"1\"\n"), None);
    assert_eq!(package_name(""), None);
}

#[test]
fn a_hyphenated_package_gets_an_explicit_redirect() {
    assert_eq!(
        dep_line("cljrs_base64", "/x/cljrs-base64", Some("cljrs-base64")),
        "cljrs_base64 = { path = \"/x/cljrs-base64\", package = \"cljrs-base64\" }\n"
    );
}

#[test]
fn a_matching_name_needs_no_redirect() {
    assert_eq!(
        dep_line("my_plugin", "/x/my_plugin", Some("my_plugin")),
        "my_plugin = { path = \"/x/my_plugin\" }\n"
    );
}

#[test]
fn an_unknown_package_keeps_the_original_shape() {
    assert_eq!(
        dep_line("my_plugin", "/x/dep", None),
        "my_plugin = { path = \"/x/dep\" }\n"
    );
}

#[test]
fn blank_lines_and_comments_in_front_change_nothing() {
    let toml = "[package]\nname = \"a-b\"\n";
    for line in ["\n", "# [package]\n", "   \t \n"] {
        assert_eq!(package_name(&format!("{line}{toml}")), Some("a-b"));
    }
}
