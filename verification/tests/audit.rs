use cargo_tribute::audit::{declared_leaves, finding, leaf_names, license_files, run_audit, Scan};
use cargo_tribute::harvest::SourceFile;

fn scan(declared: Option<&str>, best: &str) -> Scan {
    Scan {
        name: "dep".to_string(),
        version: "1.0.0".to_string(),
        declared: declared.map(|s| s.to_string()),
        file: "LICENSE".to_string(),
        best: best.to_string(),
        confident: true,
        score: "0.98".to_string(),
        close: vec![],
    }
}

#[test]
fn mismatched_license_file_is_flagged() {
    let report = run_audit(&vec![scan(Some("Zlib"), "MIT"), scan(Some("MIT OR Zlib"), "MIT")], 2);
    assert_eq!(
        report,
        "audit: 1 possible mismatches (advisory only):\n  \
         dep 1.0.0: LICENSE matches MIT (score 0.98) but the declared license is 'Zlib'"
    );
}

#[test]
fn nothing_to_report_is_said_with_numbers() {
    assert_eq!(
        run_audit(&vec![scan(Some("MIT"), "MIT"), scan(Some("Zlib AND MIT"), "MIT")], 12),
        "audit: no mismatches (2 license files scanned across 12 crates)"
    );
    assert_eq!(run_audit(&vec![], 0), "audit: no mismatches (0 license files scanned across 0 crates)");
}

#[test]
fn unsure_or_close_matches_are_not_reported() {
    let leaves = vec!["Apache-2.0".to_string()];
    let mut unsure = scan(Some("Apache-2.0"), "Pixar");
    unsure.confident = false;
    assert_eq!(finding(&unsure, &leaves), None);
    let mut close = scan(Some("Apache-2.0"), "Pixar");
    close.close = vec!["Apache-2.0".to_string()];
    assert_eq!(finding(&close, &leaves), None);
    close.close = vec!["MIT".to_string()];
    assert!(finding(&close, &leaves).is_some());
    assert!(finding(&scan(None, "MIT"), &vec![]).is_some_and(|m| m.ends_with("but the declared license is '<none>'")));
}

#[test]
fn every_license_of_the_expression_counts() {
    assert_eq!(declared_leaves(Some("Zlib OR MIT AND MIT")), vec!["MIT", "Zlib"]);
    assert_eq!(declared_leaves(Some("LicenseRef-x")), vec!["LicenseRef-x"]);
    assert!(declared_leaves(Some("not a license")).is_empty());
    assert!(declared_leaves(None).is_empty());
    assert!(leaf_names(Err("no".to_string())).is_empty());
}

#[test]
fn notices_are_not_scanned_for_licenses() {
    let file = |name: &str| SourceFile { name: name.to_string(), is_file: true, len: 1, bytes: Some(vec![65]) };
    let got = license_files(&vec![file("LICENSE"), file("NOTICE"), file("COPYING"), file("main.rs")]);
    let names: Vec<&str> = got.iter().map(|f| f.name.as_str()).collect();
    assert_eq!(names, vec!["COPYING", "LICENSE"]); // by name
    assert_eq!(got[0].text, "A");
}
