use cargo_tribute::config::{
    applies_given, apply_deny, clarify_expr, load_settings, parse_accept, policy_matches, settle, warn_given, warn_unknown_ids,
    Clarify, Config, ConfigFile, DenyConfig, DenyException, DenyFile, DenyLicenses, Exception, Layout, LicenseText, Settings,
};
use cargo_tribute::paths::{file_name, inside, link_of, place_under, relative_inside, split_extension, Link, Part};

fn text(s: &str) -> String {
    s.to_string()
}

fn defaults() -> Settings {
    load_settings("/w", "/w/tribute.toml", ConfigFile::Missing).unwrap_or_else(|e| panic!("{e}"))
}

#[test]
fn clarify_matches_name_and_version() {
    let c = vec![
        Clarify { name: "ring".into(), version: None, expression: "MIT AND ISC".into() },
        Clarify { name: "foo".into(), version: Some("1.0".into()), expression: "BSD-3-Clause".into() },
    ];
    assert_eq!(clarify_expr(&c, "ring", "0.17.8"), Some("MIT AND ISC")); // omitted version matches any
    assert_eq!(clarify_expr(&c, "foo", "1.0.0"), Some("BSD-3-Clause")); // req "1.0" matches 1.0.0
    assert_eq!(clarify_expr(&c, "foo", "1.4.0"), Some("BSD-3-Clause")); // and 1.4.0 (caret req)
    assert_eq!(clarify_expr(&c, "foo", "2.0.0"), None); // out of req range
    assert_eq!(clarify_expr(&c, "bar", "1.0.0"), None); // name mismatch
}

#[test]
fn relative_inside_rejects_escapes_and_rootlike() {
    assert!(relative_inside("manifest", &link_of("THIRD-PARTY.md")).is_ok());
    assert!(relative_inside("licenses-dir", &link_of("docs/LICENSES")).is_ok());
    assert!(relative_inside("manifest", &link_of("")).is_err()); // no target -> project root
    assert!(relative_inside("licenses-dir", &link_of(".")).is_err()); // "." -> project root
    assert!(relative_inside("manifest", &link_of("../escape.md")).is_err());
    assert!(relative_inside("manifest", &link_of("/etc/passwd")).is_err());
}

#[test]
fn unreadable_config_errors_instead_of_defaulting() {
    // a present but unreadable configuration must not be silently ignored.
    let r = load_settings("/w", "/w/tribute.toml", ConfigFile::Unreadable(text("stream did not contain valid UTF-8")));
    assert_eq!(r.err(), Some(text("/w/tribute.toml: stream did not contain valid UTF-8")));
    let r = load_settings("/w", "/w/tribute.toml", ConfigFile::Malformed(text("invalid type")));
    assert_eq!(r.err(), Some(text("tribute.toml: invalid type")));
    // a missing config still falls back to defaults.
    assert!(load_settings("/w", "/w/tribute.toml", ConfigFile::Missing).is_ok());
}

#[test]
fn escaping_path_is_named_in_the_error() {
    assert_eq!(
        relative_inside("notices-dir", &link_of("a/../b")),
        Err(text("tribute.toml: notices-dir must be a relative path inside the project (got 'a/../b')"))
    );
    assert!(relative_inside("manifest", &link_of("./a")).is_ok());
    assert!(relative_inside("manifest", &link_of("a//b/")).is_ok());
    assert!(relative_inside("manifest", &link_of("./")).is_err());
}

#[test]
fn components_decide_whether_a_path_stays_inside() {
    let drive = vec![Part::Other, Part::Other, Part::Name]; // C:\x
    assert!(!inside(true, &drive));
    assert!(!inside(false, &vec![Part::Up, Part::Name])); // ..\x
    assert!(!inside(false, &vec![Part::Other]) && !inside(false, &vec![]));
    assert!(inside(false, &vec![Part::Name, Part::Name]));
    let up = Link { text: text("..\\x"), absolute: false, parts: vec![Part::Up, Part::Name] };
    assert_eq!(
        settle("C:\\w", Config { manifest: Some(up), ..Config::empty() }).err().as_deref(),
        Some("tribute.toml: manifest must be a relative path inside the project (got '..\\x')")
    );
    let l = link_of("./a/..");
    assert!(l.text == "./a/.." && !l.absolute && l.parts == vec![Part::Other, Part::Name, Part::Up]);
    assert!(link_of("/").absolute);
}

#[test]
fn defaults_are_settled() {
    let s = defaults();
    let licenses: Vec<&str> = s.accepted.iter().map(|a| a.license.as_str()).collect();
    assert_eq!(
        licenses,
        vec!["MIT", "Apache-2.0", "BSD-2-Clause", "BSD-3-Clause", "ISC", "0BSD", "Zlib", "Unlicense", "Unicode-3.0"]
    );
    assert!(!s.accepted_explicit);
    assert!(!s.include_dev && !s.include_build && !s.skip_private && !s.skip_proc_macros);
    assert_eq!(s.manifest, "/w/THIRD-PARTY.md");
    assert_eq!(s.licenses_dir, "/w/LICENSES");
    assert_eq!(s.notices_dir, "/w/NOTICES");
    assert_eq!(s.flat_file, "/w/THIRD-PARTY-NOTICES");
    assert!(s.layout == Layout::Folders);
    assert!(s.clarify.is_empty() && s.exception.is_empty() && s.extra.is_empty() && s.license_text.is_empty());
}

#[test]
fn configured_fields_are_settled() {
    let cfg = Config {
        accepted: Some(vec![text("MIT"), text("GPL-2.0-only WITH Classpath-exception-2.0")]),
        include_dev: Some(true),
        skip_private: Some(true),
        manifest: Some(link_of("docs/LIST.md")),
        layout: Some(Layout::Both),
        ..Config::empty()
    };
    let s = settle("/w/", cfg).unwrap_or_else(|e| panic!("{e}"));
    assert!(s.accepted_explicit);
    assert_eq!(s.accepted[1].license, "GPL-2.0-only");
    assert_eq!(s.accepted[1].exception.as_deref(), Some("Classpath-exception-2.0"));
    assert!(s.include_dev && !s.include_build && s.skip_private);
    assert_eq!(s.manifest, "/w/docs/LIST.md");
    assert_eq!(s.manifest_link, "docs/LIST.md");
    assert!(s.layout == Layout::Both);
}

#[test]
fn each_output_path_is_held_inside() {
    let message = |cfg: Config| settle("/w", cfg).err().unwrap_or_default();
    assert!(message(Config { manifest: Some(link_of("/x")), ..Config::empty() }).starts_with("tribute.toml: manifest must"));
    assert!(message(Config { licenses_dir: Some(link_of("..")), ..Config::empty() }).starts_with("tribute.toml: licenses-dir must"));
    assert!(message(Config { notices_dir: Some(link_of(".")), ..Config::empty() }).starts_with("tribute.toml: notices-dir must"));
    assert!(message(Config { flat_file: Some(link_of("")), ..Config::empty() }).starts_with("tribute.toml: flat-file must"));
    let entries = vec![
        LicenseText { id: text("LicenseRef-a"), file: link_of("a.txt") },
        LicenseText { id: text("LicenseRef-b"), file: link_of("../b.txt") },
    ];
    assert_eq!(
        message(Config { license_text: Some(entries), ..Config::empty() }),
        "tribute.toml: license-text file must be a relative path inside the project (got '../b.txt')"
    );
}

#[test]
fn accepted_entry_is_split_at_with() {
    let a = parse_accept("  MIT ");
    assert_eq!((a.raw.as_str(), a.license.as_str(), a.exception.as_deref()), ("  MIT ", "MIT", None));
    let a = parse_accept("GPL-2.0-only WITH  Classpath-exception-2.0 ");
    assert_eq!((a.license.as_str(), a.exception.as_deref()), ("GPL-2.0-only", Some("Classpath-exception-2.0")));
    assert!(a.allows("GPL-2.0-only", Some("Classpath-exception-2.0")));
    assert!(!a.allows("GPL-2.0-only", None));
    assert!(!a.allows("GPL-2.0-only", Some("GCC-exception-2.0")));
    let bare = parse_accept("MIT");
    assert!(bare.allows("MIT", None) && bare.allows("MIT", Some("LLVM-exception")) && !bare.allows("ISC", None));
}

#[test]
fn entry_needs_its_name_and_its_requirement() {
    assert!(policy_matches("a", None, "a", "1.0.0"));
    assert!(policy_matches("a", Some("=1.0.0"), "a", "1.0.0"));
    assert!(!policy_matches("a", Some("=1.0.0"), "a", "1.0.1"));
    assert!(!policy_matches("a", Some("not a requirement"), "a", "1.0.0"));
    assert!(!policy_matches("a", None, "b", "1.0.0"));
    assert!(applies_given("a", "a", None) && applies_given("a", "a", Some(true)));
    assert!(!applies_given("a", "a", Some(false)) && !applies_given("a", "b", Some(true)));
}

#[test]
fn unknown_ids_are_warned_about() {
    assert!(warn_unknown_ids("accepted", &parse_accept("MIT")).is_empty());
    assert!(warn_unknown_ids("accepted", &parse_accept("LicenseRef-weird")).is_empty());
    assert_eq!(
        warn_unknown_ids("accepted", &parse_accept("Apache2.0")),
        vec!["cargo-tribute: warning: accepted license 'Apache2.0' is not a known SPDX id"]
    );
    assert_eq!(
        warn_unknown_ids("exception-allowed", &parse_accept("MIT WITH Nope")),
        vec!["cargo-tribute: warning: exception-allowed exception 'Nope' is not a known SPDX id"]
    );
    assert!(warn_unknown_ids("accepted", &parse_accept("Apache-2.0 WITH LLVM-exception")).is_empty());
    assert_eq!(warn_given("accepted", &parse_accept("A WITH B"), false, false).len(), 2);
    assert_eq!(warn_given("accepted", &parse_accept("A WITH B"), true, true).len(), 0);
}

fn deny(licenses: Option<DenyLicenses>) -> DenyFile {
    DenyFile::Parsed(DenyConfig { licenses })
}

#[test]
fn policy_is_taken_from_a_deny_file() {
    let mut s = defaults();
    s.exception.push(Exception { name: text("own"), version: None, allow: vec![text("ISC")] });
    let file = deny(Some(DenyLicenses {
        allow: Some(vec![text("MIT"), text("Apache-2.0")]),
        exceptions: Some(vec![DenyException { name: text("dep"), allow: vec![text("MPL-2.0")], version: Some(text("1")) }]),
    }));
    assert_eq!(apply_deny(&mut s, "deny.toml", file), Ok(()));
    let licenses: Vec<&str> = s.accepted.iter().map(|a| a.license.as_str()).collect();
    assert_eq!(licenses, vec!["MIT", "Apache-2.0"]);
    assert!(s.accepted_explicit);
    assert_eq!(s.exception.len(), 2);
    assert_eq!(s.exception[1].name, "dep");
    assert_eq!(s.exception[1].allow, vec!["MPL-2.0"]);
    assert_eq!(s.manifest, "/w/THIRD-PARTY.md");
}

#[test]
fn deny_file_errors() {
    let mut s = defaults();
    let err = |s: &mut Settings, f: DenyFile| apply_deny(s, "deny.toml", f).err().unwrap_or_default();
    assert_eq!(err(&mut s, DenyFile::Failed(text("no such file"))), "deny.toml: no such file");
    assert_eq!(err(&mut s, deny(None)), "deny.toml: no [licenses] section");
    assert_eq!(
        err(&mut s, deny(Some(DenyLicenses { allow: None, exceptions: None }))),
        "deny.toml: no [licenses] allow list"
    );
    assert!(!s.accepted_explicit);
    assert_eq!(s.accepted.len(), 9);
    s.accepted_explicit = true;
    assert_eq!(
        err(&mut s, deny(None)),
        "tribute.toml sets `accepted` and --from-deny is given; keep one source"
    );
}

#[test]
fn paths_are_taken_apart() {
    assert_eq!(place_under("/w", "a/b"), "/w/a/b");
    assert_eq!(place_under("/w/", "a"), "/w/a");
    assert_eq!(place_under("", "a"), "a");
    assert_eq!(place_under("/w", "/x"), "/x");
    assert_eq!(file_name("N/dep-2.0.0.txt"), Some(text("dep-2.0.0.txt")));
    assert_eq!(file_name("N/a/"), Some(text("a")));
    assert_eq!(file_name("N/.."), None);
    assert_eq!(file_name(""), None);
    assert_eq!(split_extension("dep-2.0.0.txt"), (text("dep-2.0.0"), Some(text("txt"))));
    assert_eq!(split_extension(".txt"), (text(".txt"), None));
    assert_eq!(split_extension("README"), (text("README"), None));
    assert_eq!(split_extension("a."), (text("a"), Some(text(""))));
}

#[test]
fn placed_output_stays_under_the_root() {
    let s = settle("/w", Config { licenses_dir: Some(link_of("a/./b")), ..Config::empty() }).unwrap_or_else(|e| panic!("{e}"));
    assert!(s.licenses_dir.starts_with("/w/"));
    assert!(!s.licenses_dir.contains(".."));
}
