use cargo_tribute::harvest::{
    attribution_files, attribution_names, classify, copyright_lines, display_author, extras_from, harvest_extras, is_copyright,
    to_lf, AttributionFile, SourceFile,
};

fn file(name: &str, body: &[u8]) -> SourceFile {
    SourceFile { name: name.to_string(), is_file: true, len: body.len() as u64, bytes: Some(body.to_vec()) }
}

fn names(list: &[&str]) -> Vec<String> {
    list.iter().map(|s| s.to_string()).collect()
}

#[test]
fn copyright_lines_extracts_holders_and_skips_boilerplate() {
    let mut out = Vec::new();
    copyright_lines(
        "MIT License\n\n  Copyright   (c)  2019 The dep   Developers\nCopyright 2024 Alice\n© 2024 Bob\n\
         Copyright (c) <year> <copyright holders>\nCopyright [yyyy] [name of copyright owner]\n\
         Copyright {yyyy} {name of copyright owner}\nCopyright\nCopyright (c)\n\
         copyright license to reproduce, prepare Derivative Works of,\n\
         copyright notice that is included in or attached to the work\n\
         COPYRIGHT AND PERMISSION NOTICE\nPermission is hereby granted...\n",
        &mut out,
    );
    let got: Vec<&str> = out.iter().map(String::as_str).collect();
    // real holders kept, whitespace normalized; placeholders, bare headings,
    // and wrapped license-body fragments dropped.
    assert_eq!(got, vec!["Copyright (c) 2019 The dep Developers", "Copyright 2024 Alice", "© 2024 Bob"]);

    // duplicates across files dedup via the shared set.
    copyright_lines("Copyright 2024 Alice\n", &mut out);
    assert_eq!(out.len(), 3);
}

#[test]
fn statements_do_not_depend_on_how_files_are_cut() {
    let collect = |texts: &[&str]| {
        let mut out = names(&["Copyright 2020 Zoe"]);
        for t in texts {
            copyright_lines(t, &mut out);
        }
        out
    };
    let (a, b) = ("x\nCopyright 2024 Alice\r", "© 2024 Bob\nCopyright 2024 Alice\n");
    let joined = format!("{a}\n{b}");
    assert_eq!(collect(&[a, b]), names(&["Copyright 2020 Zoe", "Copyright 2024 Alice", "© 2024 Bob"]));
    assert_eq!(collect(&[b, a]), collect(&[a, b]));
    assert_eq!(collect(&[a, a, b, a]), collect(&[a, b]));
    assert_eq!(collect(&[joined.as_str()]), collect(&[a, b]));
}

#[test]
fn display_author_strips_email() {
    assert_eq!(display_author("Alice <alice@example.com>"), "Alice");
    assert_eq!(display_author("Bob"), "Bob");
    assert_eq!(display_author("<only@email.com>"), "<only@email.com>");
}

#[test]
fn holder_may_be_in_any_script() {
    assert!(is_copyright("Copyright 株式会社"));
    assert!(is_copyright("COPYRIGHT (C) 2020 ACME"));
    assert!(!is_copyright("Copyright (C)"));
    assert!(!is_copyright("Copyright Notice"));
    assert!(!is_copyright("Copyright \"LAW\" applies"));
    assert!(is_copyright("Copyright lawyers"));
    assert!(!is_copyright("Copyright {YEAR} someone"));
    assert!(!is_copyright("(c) 2020 someone"));
}

#[test]
fn file_names_are_classified() {
    assert_eq!(classify("NOTICE"), Some(true));
    assert_eq!(classify("notices.TXT"), Some(true));
    assert_eq!(classify("NOTICE-extra"), None);
    assert_eq!(classify("LICENSE-MIT"), Some(false));
    assert_eq!(classify("Licence.md"), Some(false));
    assert_eq!(classify("COPYING.LESSER"), Some(false));
    assert_eq!(classify("copyright"), Some(false));
    assert_eq!(classify("README.md"), None);
    assert_eq!(classify("LİCENSE"), None);
}

#[test]
fn names_to_scan_come_in_order() {
    let all = names(&["src", "NOTICE", "LICENSE-MIT", "Cargo.toml", "LICENSE-APACHE", "copying"]);
    assert_eq!(attribution_names(all), vec!["LICENSE-APACHE", "LICENSE-MIT", "NOTICE", "copying"]);
}

#[test]
fn directories_huge_and_unreadable_files_are_skipped() {
    let mut dir = file("LICENSES", b"");
    dir.is_file = false;
    let mut huge = file("LICENSE-HUGE", b"Copyright 2024 Huge");
    huge.len = 1_000_001;
    let mut edge = file("LICENSE-EDGE", b"Copyright 2024 Edge");
    edge.len = 1_000_000;
    let mut unread = file("LICENSE-GONE", b"");
    unread.bytes = None;
    let found = attribution_files(&vec![dir, huge, edge, unread, file("main.rs", b"Copyright 2024 Code")]);
    assert_eq!(found.len(), 1);
    assert_eq!(found[0].name, "LICENSE-EDGE");
    assert!(!found[0].is_notice);
}

#[test]
fn bytes_that_are_no_text_are_replaced() {
    let found = attribution_files(&vec![file("LICENSE", b"a\xffb\r\nc")]);
    assert_eq!(found[0].text, "a\u{fffd}b\nc");
    let found = attribution_files(&vec![file("LICENSE", "© plain".as_bytes())]);
    assert_eq!(found[0].text, "© plain");
}

#[test]
fn notices_are_joined_by_name() {
    let list = vec![file("notices.md", b"third"), file("NOTICE.txt", b"second"), file("LICENSE", b"x"), file("NOTICE", b"first")];
    assert_eq!(harvest_extras(&vec![], &list).notice.as_deref(), Some("first\nsecond\nthird"));
    let found: Vec<String> = attribution_files(&list).into_iter().map(|f| f.name).collect();
    assert_eq!(found, vec!["LICENSE", "NOTICE", "NOTICE.txt", "notices.md"]);
}

#[test]
fn extras_are_gathered_from_all_files() {
    let x = harvest_extras(
        &names(&["Dep Author <dep@example.com>"]),
        &vec![
            file("LICENSE", b"Copyright (c) 2024 Dep Author\r\n\r\nPermission is hereby granted...\r\n"),
            file("NOTICE", b"dep\nCopyright 2024 Dep Author\n"),
            file("NOTICES.md", b"more"),
        ],
    );
    assert_eq!(x.copyrights, vec!["Copyright (c) 2024 Dep Author", "Copyright 2024 Dep Author"]);
    assert_eq!(x.authors, vec!["Dep Author <dep@example.com>"]);
    assert_eq!(x.notice.as_deref(), Some("dep\nCopyright 2024 Dep Author\n\nmore"));
}

#[test]
fn without_notice_files_there_is_no_notice() {
    let license = AttributionFile { name: "LICENSE".to_string(), text: "Copyright 1 A\nCopyright 1 A".to_string(), is_notice: false };
    let x = extras_from(&vec![], &vec![license]);
    assert_eq!(x.copyrights, vec!["Copyright 1 A"]);
    assert_eq!(x.notice, None);
}

#[test]
fn line_ends_are_normalized_once() {
    assert_eq!(to_lf("a\r\nb\nc\r"), "a\nb\nc\r");
    assert_eq!(to_lf("\r\r\n"), "\r\n");
}
