use cargo_tribute::bundle::{custom_texts, gather, merge_notice, pick_text, resolve_texts, LocalText, Shipped};
use cargo_tribute::cli::{mode, Failure, Format, Mode, Output};
use cargo_tribute::config::{parse_accept, settle, Clarify, Config, Exception, Extra, Layout, LicenseText, Settings};
use cargo_tribute::expression::Expression;
use cargo_tribute::graph::{Dep, DepKind, Graph, GraphNode, Package};
use cargo_tribute::harvest::SourceFile;
use cargo_tribute::paths::link_of;
use cargo_tribute::plan::{check, plan_documents, plan_licenses, plan_notices, write_summary, Step};
use cargo_tribute::resolve::{judge, judge_parsed};
use cargo_tribute::run::{gate, prepare, resolve_graph, Files, Next, Resolved};
use cargo_tribute::sets::Table;
use cargo_tribute::stale::{path_of, Disk};
use cargo_tribute::warnings::{policy_warnings, text_warnings};

fn text(s: &str) -> String {
    s.to_string()
}

fn names(list: &[&str]) -> Vec<String> {
    list.iter().map(|s| s.to_string()).collect()
}

fn package(name: &str, version: &str, license: Option<&str>) -> Package {
    Package {
        id: format!("{name}@{version}"),
        name: text(name),
        version: text(version),
        license: license.map(text),
        repository: None,
        authors: vec![],
        crates_io: true,
        proc_macro: false,
    }
}

/// A workspace with the member `app` that depends on all given packages.
fn graph(deps: Vec<Package>) -> Graph {
    let needs = deps.iter().map(|p| Dep { pkg: p.id.clone(), kinds: vec![DepKind::Normal] }).collect();
    let mut packages = vec![package("app", "0.0.0", None)];
    packages.extend(deps);
    Graph {
        packages,
        nodes: vec![GraphNode { id: text("app@0.0.0"), deps: needs }],
        members: names(&["app@0.0.0"]),
    }
}

fn settings(cfg: Config) -> Settings {
    settle("/w", cfg).unwrap_or_else(|e| panic!("{e}"))
}

fn resolved<'a>(g: &'a Graph, s: &'a Settings) -> Resolved<'a> {
    match resolve_graph(Some(g), s, &vec![]) {
        Ok(r) => r,
        Err(_) => panic!("not resolved"),
    }
}

fn file(name: &str, body: &str) -> SourceFile {
    SourceFile { name: text(name), is_file: true, len: body.len() as u64, bytes: Some(body.as_bytes().to_vec()) }
}

fn files_for(g: &Graph, s: &Settings, shipped: &[(usize, &str)], local: Vec<LocalText>) -> (Files, Vec<String>) {
    let r = resolved(g, s);
    let list: Vec<Shipped> = shipped.iter().map(|(i, body)| (&g.packages[*i], vec![file("NOTICE", body)])).collect();
    let mut warnings = Vec::new();
    match prepare(s, None, &r, &g.packages, &list, &local, &mut warnings) {
        Ok(Next::Files(f)) => (f, warnings),
        _ => panic!("no files"),
    }
}

#[test]
fn accepted_tree_has_no_failures() {
    let g = graph(vec![package("dep", "1.0.0", Some("MIT OR Apache-2.0")), package("other", "2.0.0", Some("Apache-2.0"))]);
    let s = settings(Config::empty());
    let r = resolved(&g, &s);
    assert_eq!(r.deps, names(&["dep@1.0.0", "other@2.0.0"]));
    assert!(r.failures.is_empty() && r.warnings.is_empty());
    assert_eq!(r.effective.get("dep@1.0.0").map(String::as_str), Some("MIT OR Apache-2.0"));
    assert_eq!(r.chosen_of.get("dep@1.0.0"), Some(&names(&["MIT"])));
    assert_eq!(r.by_license.get("MIT").map(|l| l.len()), Some(1));
    assert_eq!(r.by_license.get("Apache-2.0").map(|l| l[0].name.as_str()), Some("other"));
    assert!(r.used_exceptions.is_empty());
}

#[test]
fn every_failure_is_named() {
    let mut g = graph(vec![
        package("a", "1.0.0", None),
        package("b", "1.0.0", Some("GPL-3.0-only")),
        package("c", "1.0.0", Some("not a license")),
    ]);
    g.nodes[0].deps.push(Dep { pkg: text("gone"), kinds: vec![DepKind::Normal] });
    let s = settings(Config::empty());
    let r = resolved(&g, &s);
    assert_eq!(r.failures.len(), 4);
    assert_eq!(r.failures[0], "a 1.0.0: no license field (add a [[clarify]] entry to tribute.toml)");
    assert_eq!(r.failures[1], "b 1.0.0: license 'GPL-3.0-only' not in the accepted set");
    assert!(r.failures[2].starts_with("c 1.0.0: unparsable SPDX 'not a license' ("));
    assert_eq!(r.failures[3], "PackageId { repr: \"gone\" }: no package metadata (internal)");
    assert!(r.chosen_of.get("b@1.0.0").is_none());
    assert_eq!(r.effective.get("b@1.0.0").map(String::as_str), Some("GPL-3.0-only"));
    assert!(r.effective.get("a@1.0.0").is_none());
}

#[test]
fn gate_is_lenient_for_descriptions_only() {
    let none: Vec<String> = vec![];
    assert!(matches!(gate(&none, None), Ok(w) if w.is_empty()));
    let some = names(&["x 1: bad", "y 2: bad"]);
    assert!(matches!(gate(&some, Some(Format::Json)), Ok(w) if w == names(&["cargo-tribute: warning: x 1: bad", "cargo-tribute: warning: y 2: bad"])));
    assert!(gate(&some, Some(Format::CycloneDx)).is_ok());
    assert!(matches!(gate(&some, Some(Format::Text)), Err(Failure::Policy(_))));
    match gate(&some, None) {
        Err(Failure::Policy(m)) => assert_eq!(
            m,
            "license policy failed:\n  x 1: bad\n  y 2: bad\n  (fix in tribute.toml: `accepted` allows a license everywhere, \
             [[exception]] for one crate, [[clarify]] when the declared expression is wrong)"
        ),
        _ => panic!("passed"),
    }
}

#[test]
fn exception_allows_a_license_for_one_crate_only() {
    let g = graph(vec![package("dep", "1.0.0", Some("MPL-2.0")), package("two", "1.0.0", Some("MPL-2.0"))]);
    let s = settings(Config {
        exception: Some(vec![Exception { name: text("dep"), version: None, allow: names(&["MPL-2.0"]) }]),
        ..Config::empty()
    });
    let r = resolved(&g, &s);
    assert_eq!(r.failures, names(&["two 1.0.0: license 'MPL-2.0' not in the accepted set"]));
    assert_eq!(r.by_license.get("MPL-2.0").map(|l| l.len()), Some(1));
}

#[test]
fn clarified_expression_is_the_one_that_counts() {
    let g = graph(vec![package("ring", "0.17.8", None)]);
    let s = settings(Config {
        clarify: Some(vec![
            Clarify { name: text("ring"), version: Some(text("0.16")), expression: text("OpenSSL") },
            Clarify { name: text("ring"), version: Some(text("0.17")), expression: text("MIT AND ISC") },
        ]),
        ..Config::empty()
    });
    let r = resolved(&g, &s);
    assert!(r.failures.is_empty());
    assert_eq!(r.chosen_of.get("ring@0.17.8"), Some(&names(&["ISC", "MIT"])));
    assert_eq!(r.warnings, names(&["cargo-tribute: warning: clarify for 'ring 0.16' matched no dependency"]));
}

#[test]
fn with_exception_needs_its_text() {
    let g = graph(vec![package("dep", "1.0.0", Some("Apache-2.0 WITH LLVM-exception"))]);
    let s = settings(Config::empty());
    let r = resolved(&g, &s);
    assert_eq!(r.used_exceptions, names(&["LLVM-exception"]));
    let (f, _) = files_for(&g, &s, &[], vec![]);
    let keys: Vec<&str> = f.texts.rows.iter().map(|row| row.0.as_str()).collect();
    assert_eq!(keys, vec!["Apache-2.0", "LLVM-exception"]);
    assert_eq!(f.counts.texts, 2);
}

#[test]
fn unused_accepted_entries_warn_when_explicit() {
    let g = graph(vec![package("dep", "1.0.0", Some("MIT OR GPL-3.0-only"))]);
    let s = settings(Config { accepted: Some(names(&["MIT", "Zlib", "GPL-3.0-only"])), ..Config::empty() });
    let r = resolved(&g, &s);
    assert_eq!(r.warnings, names(&["cargo-tribute: warning: accepted license 'Zlib' matched no dependency"]));
    // not for a partial view.
    let scoped = match resolve_graph(Some(&g), &s, &names(&["app"])) {
        Ok(r) => r,
        Err(_) => panic!("not resolved"),
    };
    assert!(scoped.warnings.is_empty());
}

#[test]
fn extra_entry_counts_as_use_and_is_judged() {
    let g = graph(vec![package("dep", "1.0.0", Some("LicenseRef-weird"))]);
    let extra = |name: &str, expression: &str| Extra {
        name: text(name),
        expression: text(expression),
        url: None,
        copyright: None,
        notes: None,
    };
    let s = settings(Config {
        accepted: Some(names(&["MIT", "Zlib", "LicenseRef-weird"])),
        extra: Some(vec![extra("zlib", "Zlib"), extra("bad", "GPL-3.0-only"), extra("odd", "???")]),
        license_text: Some(vec![
            LicenseText { id: text("LicenseRef-weird"), file: link_of("weird.txt") },
            LicenseText { id: text("LicenseRef-idle"), file: link_of("idle.txt") },
        ]),
        ..Config::empty()
    });
    let r = resolved(&g, &s);
    assert_eq!(r.warnings, names(&["cargo-tribute: warning: accepted license 'MIT' matched no dependency"]));
    assert_eq!(r.failures.len(), 2);
    assert_eq!(r.failures[0], "[[extra]] bad: license 'GPL-3.0-only' not in the accepted set");
    assert!(r.failures[1].starts_with("[[extra]] odd: unparsable SPDX '???' ("));
    assert_eq!(r.extra_chosen.len(), 1);
    assert_eq!(r.extra_by_license.get("Zlib").map(|l| l[0].name.as_str()), Some("zlib"));
    let local = vec![
        LocalText { id: text("LicenseRef-weird"), path: text("/w/weird.txt"), content: Ok(text("the weird\r\nlicense\r\n")) },
        LocalText { id: text("LicenseRef-idle"), path: text("/w/idle.txt"), content: Ok(text("idle")) },
    ];
    let (f, warnings) = files_for(&g, &s, &[], local);
    assert_eq!(f.texts.get("LicenseRef-weird").map(String::as_str), Some("the weird\nlicense\n"));
    assert!(f.texts.get("Zlib").is_some());
    assert_eq!(f.counts.extras, 1);
    assert_eq!(warnings, names(&["cargo-tribute: warning: license-text for 'LicenseRef-idle' matched no dependency"]));
}

#[test]
fn missing_text_is_an_error() {
    let g = graph(vec![package("dep", "1.0.0", Some("LicenseRef-weird"))]);
    let s = settings(Config { accepted: Some(names(&["LicenseRef-weird"])), ..Config::empty() });
    let r = resolved(&g, &s);
    let mut warnings = Vec::new();
    match prepare(&s, None, &r, &g.packages, &vec![], &vec![], &mut warnings) {
        Err(Failure::Other(m)) => {
            assert_eq!(m, "no text for 'LicenseRef-weird' (add a [[license-text]] entry to tribute.toml)")
        },
        _ => panic!("prepared"),
    }
    let unread = vec![LocalText { id: text("LicenseRef-weird"), path: text("/w/x.txt"), content: Err(text("denied")) }];
    match prepare(&s, None, &r, &g.packages, &vec![], &unread, &mut warnings) {
        Err(Failure::Other(m)) => assert_eq!(m, "/w/x.txt: denied"),
        _ => panic!("prepared"),
    }
    assert!(warnings.is_empty());
}

#[test]
fn graph_and_members_are_needed() {
    let s = settings(Config::empty());
    assert!(
        matches!(resolve_graph(None, &s, &vec![]), Err(Failure::Other(m)) if m == "no dependency resolution (need a Cargo.toml)")
    );
    let g = graph(vec![]);
    assert!(
        matches!(resolve_graph(Some(&g), &s, &names(&["nope"])), Err(Failure::Other(m)) if m == "-p 'nope' matches no workspace member")
    );
}

#[test]
fn reports_come_in_each_format() {
    let g = graph(vec![package("dep", "1.0.0", Some("MIT"))]);
    let s = settings(Config::empty());
    let r = resolved(&g, &s);
    let list: Vec<Shipped> = vec![(&g.packages[1], vec![file("LICENSE", "Copyright 2024 Dep"), file("NOTICE", "hello")])];
    let report = |f: Format| match prepare(&s, Some(f), &r, &g.packages, &list, &vec![], &mut Vec::new()) {
        Ok(Next::Done(Output::Report(t))) => t,
        _ => panic!("no report"),
    };
    assert!(report(Format::Json).contains("\"notice\": \"hello\""));
    assert!(report(Format::Text).contains("  Copyright 2024 Dep\n"));
    assert!(report(Format::Text).contains("Permission is hereby granted"));
    assert!(report(Format::CycloneDx).contains("\"bomFormat\": \"CycloneDX\""));
}

#[test]
fn format_text_and_cyclonedx_report_without_writing() {
    // one fixture, both formats: `dep` is an MIT path dependency with a LICENSE and a NOTICE.
    let dep = Package { crates_io: false, ..package("dep", "1.0.0", Some("MIT")) };
    let g = graph(vec![dep]);
    let s = settings(Config::empty());
    let r = resolved(&g, &s);
    let list: Vec<Shipped> = vec![(
        &g.packages[1],
        vec![file("LICENSE", "Copyright (c) 2024 Dep Author\n"), file("NOTICE", "dep notice body\n")],
    )];
    let report = |f: Format| match prepare(&s, Some(f), &r, &g.packages, &list, &vec![], &mut Vec::new()) {
        Ok(Next::Done(Output::Report(t))) => t,
        _ => panic!("no report"),
    };

    // text: one flat document with the entry, the license text, and the NOTICE.
    let text = report(Format::Text);
    assert!(text.contains("Third-party licenses"), "text:\n{text}");
    assert!(text.contains("- dep 1.0.0"), "text:\n{text}");
    assert!(text.contains("Copyright (c) 2024 Dep Author"), "text:\n{text}");
    assert!(text.contains("Permission is hereby granted"), "MIT body must be included:\n{text}");
    assert!(text.contains("NOTICE for dep 1.0.0"), "text:\n{text}");
    assert!(text.contains("dep notice body"), "text:\n{text}");

    // cyclonedx: valid JSON carrying the license text and copyright.
    let bom: serde_json::Value = serde_json::from_str(&report(Format::CycloneDx)).expect("cyclonedx output must be valid JSON");
    assert_eq!(bom["bomFormat"], "CycloneDX");
    assert_eq!(bom["specVersion"], "1.6");
    let comp = &bom["components"][0];
    assert_eq!(comp["name"], "dep");
    assert_eq!(comp["version"], "1.0.0");
    assert!(comp["purl"].is_null(), "a path dep must carry no purl");
    assert_eq!(comp["licenses"][0]["license"]["id"], "MIT");
    let body = comp["licenses"][0]["license"]["text"]["content"].as_str().unwrap();
    assert!(body.contains("Permission is hereby granted"), "license text must be embedded");
    assert_eq!(comp["copyright"], "Copyright (c) 2024 Dep Author");
    assert_eq!(comp["properties"][0]["value"], "MIT");

    // neither report writes anything.
    assert!(mode(Some(Format::Text), false, false) != Mode::Write);
    assert!(mode(Some(Format::CycloneDx), false, false) != Mode::Write);
}

#[test]
fn notices_that_share_a_name_are_merged() {
    let mut t: Table<String> = Table::new();
    merge_notice(&mut t, "dep-1.0.0", "one");
    merge_notice(&mut t, "dep-1.0.0", "one");
    assert_eq!(t.get("dep-1.0.0").map(String::as_str), Some("one"));
    merge_notice(&mut t, "dep-1.0.0", "two");
    assert_eq!(t.get("dep-1.0.0").map(String::as_str), Some("one\ntwo"));
    let fork = Package { id: text("fork"), ..package("dep", "1.0.0", None) };
    let dep = package("dep", "1.0.0", None);
    let list: Vec<Shipped> = vec![(&dep, vec![file("NOTICE", "a")]), (&fork, vec![file("NOTICE", "b")])];
    let (extras, notices) = gather(&list);
    assert_eq!(notices.rows.len(), 1);
    assert_eq!(notices.get("dep-1.0.0").map(String::as_str), Some("a\nb"));
    assert_eq!(extras.rows.len(), 2);
    assert_eq!(extras.get("fork").and_then(|x| x.notice.as_deref()), Some("b"));
}

#[test]
fn canonical_text_goes_before_the_local_one() {
    let local = text("L");
    assert_eq!(pick_text(Some("C"), Some(&local)).as_deref(), Some("C"));
    assert_eq!(pick_text(None, Some(&local)).as_deref(), Some("L"));
    assert_eq!(pick_text(None, None), None);
    let entries = vec![
        LocalText { id: text("MIT"), path: text("p"), content: Ok(text("mine")) },
        LocalText { id: text("LicenseRef-a"), path: text("p"), content: Ok(text("first")) },
        LocalText { id: text("LicenseRef-a"), path: text("p"), content: Ok(text("last")) },
    ];
    let custom = custom_texts(&entries).unwrap_or_else(|e| panic!("{e}"));
    let texts = resolve_texts(&names(&["MIT", "LicenseRef-a", "MIT"]), &custom).unwrap_or_else(|e| panic!("{e}"));
    assert_eq!(texts.rows.len(), 2);
    assert!(texts.get("MIT").is_some_and(|t| t != "mine"));
    assert_eq!(texts.get("LicenseRef-a").map(String::as_str), Some("last"));
    let list = vec![LicenseText { id: text("MIT"), file: link_of("m") }, LicenseText { id: text("X"), file: link_of("x") }];
    assert_eq!(text_warnings(&list, &texts), names(&["cargo-tribute: warning: license-text for 'X' matched no dependency"]));
}

#[test]
fn policy_typos_are_warned_about() {
    let accepted = vec![parse_accept("MIT"), parse_accept("Apache2.0")];
    let exceptions = vec![Exception { name: text("dep"), version: None, allow: names(&["Mit WITH Nope"]) }];
    let got = policy_warnings(&accepted, &exceptions);
    assert_eq!(got[0], "cargo-tribute: warning: accepted license 'Apache2.0' is not a known SPDX id");
    assert!(got.contains(&text("cargo-tribute: warning: exception-allowed exception 'Nope' is not a known SPDX id")));
}

#[test]
fn judgement_of_given_results() {
    let acc = [parse_accept("MIT")];
    let j = judge_parsed("x 1", "weird", Err(text("why")), &acc);
    assert_eq!(j.failure.as_deref(), Some("x 1: unparsable SPDX 'weird' (why)"));
    assert!(j.chosen.is_none() && j.terms.is_empty());
    let e = Expression::parse("MIT WITH LLVM-exception OR Zlib").unwrap();
    let j = judge_parsed("x 1", "MIT WITH LLVM-exception OR Zlib", Ok(e), &acc);
    assert_eq!(j.chosen, Some(names(&["MIT"])));
    assert_eq!(j.exceptions, names(&["LLVM-exception"]));
    assert_eq!(j.terms, vec![(text("MIT"), Some(text("LLVM-exception"))), (text("Zlib"), None)]);
    assert_eq!(judge("x 1", None, &acc).failure.as_deref(), Some("x 1: no license field (add a [[clarify]] entry to tribute.toml)"));
}

/// An in-memory file system that steps are carried out on.
fn carry_out(files: &mut Vec<(String, String)>, steps: &Vec<Step>) {
    for step in steps {
        match step {
            Step::Remove(p) => files.retain(|f| f.0 != *p),
            Step::Write(p, t) => {
                files.retain(|f| f.0 != *p);
                files.push((p.clone(), t.clone()));
            },
            _ => {},
        }
    }
}

fn listing(files: &Vec<(String, String)>, dir: &str) -> Vec<String> {
    files.iter().map(|f| f.0.clone()).filter(|p| p.rsplit_once('/').map(|x| x.0) == Some(dir)).collect()
}

fn write_all(tree: &mut Vec<(String, String)>, s: &Settings, f: &Files) {
    if f.docs.manifest.is_some() {
        let steps = plan_licenses(&s.licenses_dir, &f.texts, &listing(tree, &s.licenses_dir));
        carry_out(tree, &steps);
        let steps = plan_notices(&s.notices_dir, &f.notices, &listing(tree, &s.notices_dir));
        carry_out(tree, &steps);
    }
    carry_out(tree, &plan_documents(s, &f.docs));
}

/// What a check reads: the files of the output, and the listings of the folders.
fn seen(tree: &Vec<(String, String)>, s: &Settings, f: &Files) -> Disk {
    let mut wanted = vec![s.manifest.clone(), s.flat_file.clone()];
    wanted.extend(f.texts.rows.iter().map(|row| path_of(&s.licenses_dir, &row.0)));
    wanted.extend(f.notices.rows.iter().map(|row| path_of(&s.notices_dir, &row.0)));
    Disk {
        files: tree.iter().filter(|file| wanted.contains(&file.0)).cloned().collect(),
        folders: vec![
            (s.licenses_dir.clone(), listing(tree, &s.licenses_dir)),
            (s.notices_dir.clone(), listing(tree, &s.notices_dir)),
        ],
    }
}

fn verdict(s: &Settings, f: &Files, disk: &Disk) -> Result<String, String> {
    match check(s, &f.texts, &f.notices, &f.docs, f.counts, disk) {
        Ok(m) => Ok(m),
        Err(Failure::Stale(m)) => Err(m),
        Err(_) => panic!("not stale"),
    }
}

fn checked(tree: &Vec<(String, String)>, s: &Settings, f: &Files) -> Result<String, String> {
    verdict(s, f, &seen(tree, s, f))
}

fn text_of<'a>(tree: &'a Vec<(String, String)>, path: &str) -> &'a str {
    tree.iter().find(|f| f.0 == path).map(|f| f.1.as_str()).unwrap_or_else(|| panic!("no {path}"))
}

fn tamper(tree: &mut Vec<(String, String)>, path: &str) {
    carry_out(tree, &vec![Step::Write(text(path), text("stale\n"))]);
}

#[test]
fn writes_manifest_then_check_roundtrips() {
    // `app` (the workspace member, excluded) with two dependencies: `dep` (MIT, ships
    // LICENSE + NOTICE) and `dep2` (MIT, authors only).
    let dep = Package { authors: names(&["Dep Author <dep@example.com>"]), ..package("dep", "1.0.0", Some("MIT")) };
    let dep2 = Package { authors: names(&["Alice <alice@example.com>"]), ..package("dep2", "1.0.0", Some("MIT")) };
    let g = graph(vec![dep, dep2]);
    let s = settings(Config::empty());
    let r = resolved(&g, &s);
    let shipped: Vec<Shipped> = vec![
        (
            &g.packages[1],
            vec![
                file("LICENSE", "Copyright (c) 2024 Dep Author\n\nPermission is hereby granted...\n"),
                file("NOTICE", "dep\nCopyright 2024 Dep Author\n"),
            ],
        ),
        (&g.packages[2], vec![]),
    ];
    let mut warnings = Vec::new();
    let f = match prepare(&s, None, &r, &g.packages, &shipped, &vec![], &mut warnings) {
        Ok(Next::Files(f)) => f,
        _ => panic!("no files"),
    };
    assert!(warnings.is_empty());

    // write: `dep` attributed as MIT, workspace member `app` excluded.
    let mut tree = vec![];
    write_all(&mut tree, &s, &f);
    let manifest = text(text_of(&tree, "/w/THIRD-PARTY.md"));
    assert!(manifest.contains("## MIT"), "manifest:\n{manifest}");
    assert!(manifest.contains("dep 1.0.0"), "manifest:\n{manifest}");
    assert!(!manifest.contains("app 0.0.0"), "workspace member must be excluded:\n{manifest}");
    assert!(tree.iter().any(|f| f.0 == "/w/LICENSES/MIT.txt"));

    // dep's copyright line comes from its LICENSE; dep2 has none, so its
    // metadata authors show instead (email stripped).
    assert!(manifest.contains("Copyright (c) 2024 Dep Author"), "manifest:\n{manifest}");
    assert!(manifest.contains("by Alice"), "manifest:\n{manifest}");
    assert!(!manifest.contains("alice@example.com"), "author email must be stripped:\n{manifest}");

    // dep's NOTICE is bundled and linked from the manifest.
    assert!(manifest.contains("NOTICES/dep-1.0.0.txt"), "manifest:\n{manifest}");
    let notice = text_of(&tree, "/w/NOTICES/dep-1.0.0.txt");
    assert!(notice.contains("Copyright 2024 Dep Author"), "notice:\n{notice}");

    // a check passes immediately after a write.
    assert!(checked(&tree, &s, &f).is_ok(), "check should pass after write");

    // tampering a bundled notice makes a check fail; a rewrite repairs it.
    tamper(&mut tree, "/w/NOTICES/dep-1.0.0.txt");
    assert!(checked(&tree, &s, &f).is_err(), "check should fail on stale notice");
    write_all(&mut tree, &s, &f);
    assert!(checked(&tree, &s, &f).is_ok(), "rewrite should repair the notice");

    // tampering the manifest makes a check fail.
    tamper(&mut tree, "/w/THIRD-PARTY.md");
    assert!(checked(&tree, &s, &f).is_err(), "check should fail on stale output");
    write_all(&mut tree, &s, &f);
    assert_eq!(text_of(&tree, "/w/THIRD-PARTY.md"), manifest);

    // so does a text that is gone.
    carry_out(&mut tree, &vec![Step::Remove(text("/w/LICENSES/MIT.txt"))]);
    assert_eq!(checked(&tree, &s, &f), Err(text("out of date (run `cargo tribute`):\n  /w/LICENSES/MIT.txt")));
}

#[test]
fn orphans_go_and_other_files_stay() {
    let g = graph(vec![package("dep", "1.0.0", Some("MIT")), package("dep2", "1.0.0", Some("MIT"))]);
    let s = settings(Config::empty());
    let (f, _) = files_for(&g, &s, &[(1, "dep\nCopyright 2024 Dep Author\n")], vec![]);

    // an old tree: one orphan of each kind, one file added by hand.
    let mut tree = vec![
        (text("/w/LICENSES/ISC.txt"), text("old")),
        (text("/w/LICENSES/mine.txt"), text("keep")),
        (text("/w/NOTICES/gone-0.1.0.txt"), text("old")),
    ];
    assert!(checked(&tree, &s, &f).is_err());
    write_all(&mut tree, &s, &f);
    assert_eq!(checked(&tree, &s, &f), Ok(text("up to date: 1 license texts, 1 notices, 2 crates")));
    let paths: Vec<&str> = tree.iter().map(|f| f.0.as_str()).collect();
    assert_eq!(
        paths,
        vec!["/w/LICENSES/mine.txt", "/w/LICENSES/MIT.txt", "/w/NOTICES/dep-1.0.0.txt", "/w/THIRD-PARTY.md"]
    );

    // a subfolder, and files that are no texts, are listed and leave a check alone.
    let mut disk = seen(&tree, &s, &f);
    disk.folders[0].1.extend(names(&["/w/LICENSES/old", "/w/LICENSES/logo.png", "/w/LICENSES/MIT"]));
    disk.folders[1].1.push(text("/w/NOTICES/archive"));
    assert!(verdict(&s, &f, &disk).is_ok());
    disk.folders[1].1.push(text("/w/NOTICES/gone-0.1.0.txt"));
    assert_eq!(verdict(&s, &f, &disk), Err(text("out of date (run `cargo tribute`):\n  /w/NOTICES/gone-0.1.0.txt")));

    // a checkout with carriage returns is no change.
    let crlf: Vec<(String, String)> = tree.iter().map(|f| (f.0.clone(), f.1.replace('\n', "\r\n"))).collect();
    assert!(checked(&crlf, &s, &f).is_ok());

    // tampering is found, and named by its path and line.
    tamper(&mut tree, "/w/NOTICES/dep-1.0.0.txt");
    assert_eq!(checked(&tree, &s, &f), Err(text("out of date (run `cargo tribute`):\n  /w/NOTICES/dep-1.0.0.txt")));
    write_all(&mut tree, &s, &f);
    assert!(checked(&tree, &s, &f).is_ok());
    tamper(&mut tree, "/w/THIRD-PARTY.md");
    assert_eq!(
        checked(&tree, &s, &f),
        Err(text("out of date (run `cargo tribute`):\n  /w/THIRD-PARTY.md (first difference at line 1)"))
    );
}

#[test]
fn folders_may_stand_in_each_other() {
    let g = graph(vec![package("dep", "1.0.0", Some("MIT"))]);
    let at = |licenses: &str, notices: &str| {
        settings(Config {
            layout: Some(Layout::Both),
            licenses_dir: Some(link_of(licenses)),
            notices_dir: Some(link_of(notices)),
            manifest: Some(link_of("legal/THIRD-PARTY.md")),
            flat_file: Some(link_of("legal/notices/ALL.txt")),
            ..Config::empty()
        })
    };
    for s in [at("legal", "legal/notices"), at("legal/notices", "legal"), at("legal", "legal")] {
        let (f, _) = files_for(&g, &s, &[(1, "notice")], vec![]);
        let mut tree = vec![
            (text("/w/legal/ISC.txt"), text("old")),
            (text("/w/legal/gone-0.1.0.txt"), text("old")),
            (text("/w/legal/notices/ISC.txt"), text("old")),
            (text("/w/legal/notices/gone-0.1.0.txt"), text("old")),
            (text("/w/legal/mine.txt"), text("keep")),
        ];
        write_all(&mut tree, &s, &f);
        assert!(checked(&tree, &s, &f).is_ok());
        assert_eq!(text_of(&tree, "/w/legal/mine.txt"), "keep");
        tamper(&mut tree, "/w/legal/notices/ALL.txt");
        assert!(checked(&tree, &s, &f).is_err());
        write_all(&mut tree, &s, &f);
        assert!(checked(&tree, &s, &f).is_ok());
    }
}

#[test]
fn flat_layout_writes_one_document() {
    let g = graph(vec![package("dep", "1.0.0", Some("MIT"))]);
    let s = settings(Config { layout: Some(Layout::Flat), ..Config::empty() });
    let (f, _) = files_for(&g, &s, &[(1, "notice")], vec![]);
    assert!(f.docs.manifest.is_none());
    let mut tree = vec![(text("/w/LICENSES/ISC.txt"), text("untouched"))];
    assert_eq!(checked(&tree, &s, &f), Err(text("out of date (run `cargo tribute`):\n  /w/THIRD-PARTY-NOTICES")));
    write_all(&mut tree, &s, &f);
    assert!(checked(&tree, &s, &f).is_ok());
    assert_eq!(tree.len(), 2);
    assert_eq!(write_summary(&s, &f.docs, f.counts), "wrote THIRD-PARTY-NOTICES (1 crates)");
}

#[test]
fn both_layouts_are_written_together() {
    let g = graph(vec![package("dep", "1.0.0", Some("MIT"))]);
    let s = settings(Config {
        layout: Some(Layout::Both),
        extra: Some(vec![Extra { name: text("z"), expression: text("Zlib"), url: None, copyright: None, notes: None }]),
        ..Config::empty()
    });
    let (f, _) = files_for(&g, &s, &[(1, "notice")], vec![]);
    let mut tree = vec![];
    write_all(&mut tree, &s, &f);
    assert_eq!(checked(&tree, &s, &f), Ok(text("up to date: 2 license texts, 1 notices, 1 crates, 1 extras")));
    assert_eq!(
        write_summary(&s, &f.docs, f.counts),
        "wrote LICENSES/ (2 license texts), NOTICES/ (1 notices) and THIRD-PARTY.md (1 crates, 1 extras) and THIRD-PARTY-NOTICES"
    );
}

#[test]
fn empty_folders_are_not_left_behind() {
    let empty: Table<String> = Table::new();
    let steps = plan_licenses("L", &empty, &names(&["L/MIT.txt", "L/readme.txt"]));
    assert!(matches!(&steps[0], Step::Remove(p) if p == "L/MIT.txt"));
    assert!(matches!(&steps[1], Step::RemoveFolder(p) if p == "L"));
    assert_eq!(steps.len(), 2);
    let mut one: Table<String> = Table::new();
    one.put("dep-1.0.0", text("n"));
    let steps = plan_notices("N", &one, &vec![]);
    assert!(matches!(&steps[0], Step::CreateFolder(p) if p == "N"));
    assert!(matches!(&steps[1], Step::Write(p, t) if p == "N/dep-1.0.0.txt" && t == "n"));
}

#[test]
fn summary_without_notices_is_short() {
    let g = graph(vec![package("dep", "1.0.0", Some("MIT"))]);
    let s = settings(Config::empty());
    let (f, _) = files_for(&g, &s, &[], vec![]);
    assert_eq!(write_summary(&s, &f.docs, f.counts), "wrote LICENSES/ (1 license texts) and THIRD-PARTY.md (1 crates)");
}

#[test]
fn attribution_is_complete() {
    let g = graph(vec![package("dep", "1.0.0", Some("MIT AND Zlib")), package("isc", "1.0.0", Some("ISC"))]);
    let s = settings(Config::empty());
    let (f, _) = files_for(&g, &s, &[], vec![]);
    let manifest = f.docs.manifest.unwrap_or_default();
    assert_eq!(manifest.matches("- [dep 1.0.0](").count(), 2);
    assert_eq!(manifest.matches("- [isc 1.0.0](").count(), 1);
    for id in ["MIT", "Zlib", "ISC"] {
        assert!(manifest.contains(&format!("## {id}\n")));
        assert!(f.texts.get(id).is_some());
    }
}
