use cargo_tribute::sets::Table;
use cargo_tribute::stale::{
    counts_as_version, io, is_orphan_text, is_stale_license, is_stale_notice, matches_output, stale_doc, stale_outputs, Disk,
};

fn table(rows: &[(&str, &str)]) -> Table<String> {
    let mut t: Table<String> = Table::new();
    for (k, v) in rows {
        t.put(k, v.to_string());
    }
    t
}

fn disk(files: &[(&str, &str)], folders: &[(&str, &[&str])]) -> Disk {
    Disk {
        files: files.iter().map(|(p, t)| (p.to_string(), t.to_string())).collect(),
        folders: folders.iter().map(|(p, e)| (p.to_string(), e.iter().map(|s| s.to_string()).collect())).collect(),
    }
}

fn stale(d: &Disk) -> Vec<String> {
    let texts = table(&[("MIT", "MIT TEXT")]);
    let notices = table(&[("dep-1.0.0", "DEP NOTICE")]);
    stale_outputs("d/LICENSES", &texts, "d/NOTICES", &notices, "d/THIRD-PARTY.md", "MANIFEST", d)
}

#[test]
fn stale_detects_missing_and_orphan() {
    // nothing on disk yet: wanted license, notice, and manifest all report stale.
    let got = stale(&disk(&[], &[]));
    assert_eq!(got, vec!["d/LICENSES/MIT.txt", "d/NOTICES/dep-1.0.0.txt", "d/THIRD-PARTY.md"]);

    // exactly what is wanted: nothing stale.
    let wanted: [(&str, &str); 3] =
        [("d/LICENSES/MIT.txt", "MIT TEXT"), ("d/NOTICES/dep-1.0.0.txt", "DEP NOTICE"), ("d/THIRD-PARTY.md", "MANIFEST")];
    let l = "d/LICENSES/MIT.txt";
    let n = "d/NOTICES/dep-1.0.0.txt";
    assert!(stale(&disk(&wanted, &[("d/LICENSES", &[l]), ("d/NOTICES", &[n])])).is_empty());

    // a leftover bundled-license text not in the wanted set is stale (we wrote it).
    let got = stale(&disk(&wanted, &[("d/LICENSES", &[l, "d/LICENSES/Apache-2.0.txt"]), ("d/NOTICES", &[n])]));
    assert_eq!(got, vec!["d/LICENSES/Apache-2.0.txt"]);

    // a hand-added file whose stem is not an SPDX id is left alone.
    let got = stale(&disk(&wanted, &[("d/LICENSES", &[l, "d/LICENSES/NOTICE.txt"]), ("d/NOTICES", &[n])]));
    assert!(got.is_empty());

    // an unused LicenseRef-* text is ours (copied from [[license-text]]) -> stale.
    let got = stale(&disk(&wanted, &[("d/LICENSES", &[l, "d/LICENSES/LicenseRef-old.txt"]), ("d/NOTICES", &[n])]));
    assert_eq!(got, vec!["d/LICENSES/LicenseRef-old.txt"]);

    // a leftover notice for a dep no longer in the tree is stale (we wrote it),
    // but a hand-added file without a "-<semver>" stem suffix is left alone.
    let got = stale(&disk(
        &wanted,
        &[("d/LICENSES", &[l]), ("d/NOTICES", &[n, "d/NOTICES/gone-2.0.0.txt", "d/NOTICES/README.txt"])],
    ));
    assert_eq!(got, vec!["d/NOTICES/gone-2.0.0.txt"]);
}

#[test]
fn stale_notice_requires_a_semver_stem_suffix() {
    let notices = table(&[("foo-bar-1.0.0", "")]);
    // ours and unused -> stale; ours and used -> not; no "-<semver>" suffix -> hand-added.
    assert!(is_stale_notice("N/dep-2.0.0.txt", &notices));
    assert!(!is_stale_notice("N/foo-bar-1.0.0.txt", &notices));
    assert!(!is_stale_notice("N/NOTICE.txt", &notices));
    assert!(!is_stale_notice("N/readme-notes.txt", &notices));
    assert!(!is_stale_notice("N/dep-2.0.0.md", &notices));
    // a pre-release version carries its own '-'; still recognized as ours.
    assert!(is_stale_notice("N/dep-1.0.0-rc.1.txt", &notices));
    // a bare-word pre-release is treated as hand-added, not deleted.
    assert!(!is_stale_notice("N/meeting-1.0.0-agenda.txt", &notices));
}

#[test]
fn matches_output_ignores_crlf() {
    // a CRLF checkout (git autocrlf) of an LF-written file is not stale.
    assert!(matches_output(Some("a\r\nb\r\n".into()), "a\nb\n"));
    assert!(matches_output(Some("a\nb\n".into()), "a\nb\n"));
    assert!(!matches_output(Some("a\nb\n".into()), "a\nDIFFERENT\n"));
    assert!(!matches_output(None, "x")); // missing file is stale
}

#[test]
fn stale_license_needs_a_known_stem() {
    let texts = table(&[("MIT", "")]);
    assert!(!is_stale_license("L/MIT.txt", &texts));
    assert!(is_stale_license("L/ISC.txt", &texts));
    assert!(is_stale_license("L/LLVM-exception.txt", &texts));
    assert!(is_stale_license("L/LicenseRef-x.txt", &texts));
    assert!(!is_stale_license("L/ISC.md", &texts));
    assert!(!is_stale_license("L/notes.txt", &texts));
    assert!(!is_stale_license("L/..", &texts));
    assert!(is_orphan_text("Custom", true, &texts));
    assert!(!is_orphan_text("Custom", false, &texts));
    assert!(!is_orphan_text("MIT", true, &texts));
}

#[test]
fn versions_are_told_from_words() {
    assert!(counts_as_version(Some("")));
    assert!(counts_as_version(Some("rc.1")));
    assert!(!counts_as_version(Some("agenda")));
    assert!(!counts_as_version(None));
}

#[test]
fn drifted_document_names_the_first_line_that_differs() {
    assert_eq!(stale_doc("F", Some("a\nb\n"), "a\nb\n"), None);
    assert_eq!(stale_doc("F", Some("a\r\nb\r\n"), "a\nb\n"), None);
    assert_eq!(stale_doc("F", Some("a\nX\nc\n"), "a\nb\nc\n"), Some("F (first difference at line 2)".to_string()));
    assert_eq!(stale_doc("F", Some("a\n"), "a\nb\n"), Some("F (first difference at line 2)".to_string()));
    assert_eq!(stale_doc("F", Some("a\nb\nc\n"), "a\nb\n"), Some("F (first difference at line 3)".to_string()));
    assert_eq!(stale_doc("F", Some(""), "a\n"), Some("F (first difference at line 1)".to_string()));
    // only the end of the last line differs: no line does, so the one behind the last is named.
    assert_eq!(stale_doc("F", Some("a"), "a\n"), Some("F (first difference at line 2)".to_string()));
    assert_eq!(stale_doc("F", None, "a\n"), Some("F".to_string()));
    let want = "x\n".repeat(120);
    let disk = format!("{}y\n", "x\n".repeat(119));
    assert_eq!(stale_doc("F", Some(&disk), &want), Some("F (first difference at line 120)".to_string()));
}

#[test]
fn failed_operation_names_its_file() {
    assert_eq!(io("p", Ok(3)), Ok(3));
    let r: Result<(), String> = io("a/b", Err("denied".to_string()));
    assert_eq!(r, Err("a/b: denied".to_string()));
}
