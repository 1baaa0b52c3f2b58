use cargo_tribute::config::Extra;
use cargo_tribute::graph::Package;
use cargo_tribute::harvest::Extras;
use cargo_tribute::manifest::render_manifest;
use cargo_tribute::notices::{push_indented, push_license_line, push_text_pointer, render_text};
use cargo_tribute::policy::canonical_text;
use cargo_tribute::report::{bom_value, cdx_copyright, license_value, render_cyclonedx, render_json, report_value};
use cargo_tribute::resolution::{arrange, dedup, Resolution};
use cargo_tribute::sets::Table;

fn text(s: &str) -> String {
    s.to_string()
}

fn names(list: &[&str]) -> Vec<String> {
    list.iter().map(|s| s.to_string()).collect()
}

fn package(id: &str, name: &str, version: &str) -> Package {
    Package {
        id: text(id),
        name: text(name),
        version: text(version),
        license: None,
        repository: None,
        authors: vec![],
        crates_io: true,
        proc_macro: false,
    }
}

fn extras(copyrights: &[&str], authors: &[&str], notice: Option<&str>) -> Extras {
    Extras { copyrights: names(copyrights), authors: names(authors), notice: notice.map(text) }
}

fn bundled() -> Extra {
    Extra {
        name: text("zlib (vendored)"),
        expression: text("Zlib"),
        url: Some(text("https://zlib.net")),
        copyright: Some(text("Copyright (C) 1995 Jean-loup Gailly")),
        notes: Some(text("local patches\n\nnone")),
    }
}

/// What a resolution is made of.
struct Parts {
    packages: Vec<Package>,
    deps: Vec<String>,
    effective: Table<String>,
    chosen_of: Table<Vec<String>>,
    extras: Table<Extras>,
    used_exceptions: Vec<String>,
    extra: Extra,
}

fn parts() -> Parts {
    let mut dep = package("1", "dep", "1.0.0");
    dep.repository = Some(text("https://example.com/dep"));
    dep.crates_io = false;
    let mut effective: Table<String> = Table::new();
    effective.put("1", text("MIT"));
    effective.put("2", text("MIT OR Apache-2.0"));
    let mut chosen_of: Table<Vec<String>> = Table::new();
    chosen_of.put("1", names(&["MIT"]));
    chosen_of.put("2", names(&["MIT"]));
    let mut found: Table<Extras> = Table::new();
    found.put("1", extras(&["Copyright (c) 2024 Dep Author"], &["Dep Author <d@example.com>"], Some("dep notice body\n")));
    found.put("2", extras(&[], &["Alice <alice@example.com>", "  "], None));
    Parts {
        packages: vec![dep, package("2", "abc", "0.10.0"), package("3", "failed", "2.0.0")],
        deps: names(&["1", "2", "3"]),
        effective,
        chosen_of,
        extras: found,
        used_exceptions: names(&["LLVM-exception"]),
        extra: bundled(),
    }
}

fn texts() -> Table<String> {
    let mut t: Table<String> = Table::new();
    t.put("MIT", text("MIT TEXT\n"));
    t.put("LLVM-exception", text("EXCEPTION TEXT"));
    t
}

fn with_resolution<T>(p: &Parts, f: impl Fn(&Resolution) -> T) -> T {
    let mut by_license: Table<Vec<&Package>> = Table::new();
    by_license.put("MIT", vec![&p.packages[0], &p.packages[1]]);
    let mut extra_by_license: Table<Vec<&Extra>> = Table::new();
    extra_by_license.put("Zlib", vec![&p.extra]);
    let extra_chosen = vec![(&p.extra, names(&["Zlib"]))];
    f(&Resolution {
        deps: &p.deps,
        packages: &p.packages,
        effective: &p.effective,
        chosen_of: &p.chosen_of,
        by_license: &by_license,
        extra_by_license: &extra_by_license,
        extra_chosen: &extra_chosen,
        used_exceptions: &p.used_exceptions,
        extras: &p.extras,
    })
}

#[test]
fn manifest_groups_by_license() {
    let got = with_resolution(&parts(), |r| render_manifest(r, "LICENSES", "NOTICES"));
    assert_eq!(
        got,
        "# Third-party licenses\n\nDependencies linked into this crate, grouped by license; full texts are in \
         [`LICENSES/`](LICENSES), NOTICE files shipped by dependencies in [`NOTICES/`](NOTICES). \
         Generated by `cargo tribute`; do not edit.\n\n\
         ## MIT\n\nText: [`LICENSES/MIT.txt`](LICENSES/MIT.txt)\n\n\
         - [abc 0.10.0](https://crates.io/crates/abc) -- `MIT OR Apache-2.0` -- by Alice\n\
         - [dep 1.0.0](https://example.com/dep) -- Copyright (c) 2024 Dep Author -- [NOTICE](NOTICES/dep-1.0.0.txt)\n\n\
         ## Zlib\n\nText: [`LICENSES/Zlib.txt`](LICENSES/Zlib.txt)\n\n\
         - [zlib (vendored)](https://zlib.net) -- Copyright (C) 1995 Jean-loup Gailly\n\n"
    );
}

#[test]
fn manifest_without_notices_does_not_mention_them() {
    let mut p = parts();
    p.extras = Table::new();
    p.extra.url = None;
    p.extra.copyright = None;
    p.extra.expression = text("Zlib OR MIT");
    let got = with_resolution(&p, |r| render_manifest(r, "L", "N"));
    assert!(got.starts_with(
        "# Third-party licenses\n\nDependencies linked into this crate, grouped by license; full texts are in [`L/`](L). Generated by"
    ));
    assert!(got.contains("- [dep 1.0.0](https://example.com/dep)\n"));
    assert!(got.contains("- zlib (vendored) -- `Zlib OR MIT`\n"));
}

#[test]
fn each_attributed_package_has_a_line() {
    let p = parts();
    let got = with_resolution(&p, |r| render_manifest(r, "L", "N"));
    for q in &p.packages[0..2] {
        assert!(got.contains(&format!("- [{} {}](", q.name, q.version)));
    }
    assert!(!got.contains("failed"));
}

#[test]
fn packages_are_sorted_by_name_and_version() {
    let list = [
        package("1", "b", "1.10.0"),
        package("2", "b", "1.9.0"),
        package("3", "a", "2.0.0"),
        package("4", "b", "1.9.0-rc.1"),
        package("5", "B", "9.0.0"),
        package("6", "b", "1.9.0"),
    ];
    let refs: Vec<&Package> = list.iter().collect();
    let ids: Vec<&str> = arrange(&refs).iter().map(|p| p.id.as_str()).collect();
    assert_eq!(ids, vec!["5", "3", "4", "2", "6", "1"]);
    let twice: Vec<&Package> = vec![&list[0], &list[0], &list[1], &list[0]];
    let ids: Vec<&str> = dedup(&twice).iter().map(|p| p.id.as_str()).collect();
    assert_eq!(ids, vec!["1", "2", "1"]);
}

#[test]
fn notices_document_is_complete() {
    let got = with_resolution(&parts(), |r| render_text(r, &texts()));
    let heavy = "=".repeat(80);
    let light = "-".repeat(80);
    let hash = "#".repeat(80);
    let want = format!(
        "THIRD-PARTY NOTICES\n\nThird-party licenses. Generated by cargo tribute; do not edit.\n\
         \n{heavy}\nPART I -- PER-PACKAGE ENTRIES\n{heavy}\n\
         \n{light}\n- abc 0.10.0\n{light}\nSource:  https://crates.io/crates/abc\n\
         License: MIT  (upstream declares: MIT OR Apache-2.0)\n\
         \nCopyright notice:\n  Alice <alice@example.com>\n    \n\
         \nLicense text: see Part II -- MIT\n\
         \n{light}\n- dep 1.0.0\n{light}\nSource:  https://example.com/dep\nLicense: MIT\n\
         \nCopyright notice:\n  Copyright (c) 2024 Dep Author\n\
         \nLicense text: see Part II -- MIT\n\
         \nNOTICE for dep 1.0.0 (reproduced as shipped):\n  dep notice body\n\
         \n{light}\n- failed 2.0.0\n{light}\nSource:  https://crates.io/crates/failed\nLicense: \n\
         \n{heavy}\nPART I (continued) -- NON-CRATE CODE\n{heavy}\n\
         \n{light}\nzlib (vendored)\n{light}\nSource:  https://zlib.net\nLicense: Zlib\n\
         \nCopyright notice:\n  Copyright (C) 1995 Jean-loup Gailly\n\
         \nLicense text: see Part II -- Zlib\n\
         \nAdditional requirements / notices:\n  local patches\n\n  none\n\
         \n{heavy}\nPART II -- LICENSE TEXTS\n{heavy}\n\
         \nOriginal license texts referenced by Part I; one copy per license.\n\
         \n{hash}\n# LLVM-exception (license exception)\n{hash}\n\nEXCEPTION TEXT\n\
         \n{hash}\n# MIT\n{hash}\n\nMIT TEXT\n"
    );
    assert_eq!(got, want);
}

#[test]
fn notices_document_names_what_it_holds() {
    let mut p = parts();
    p.packages[0].repository = None;
    let mut t: Table<String> = Table::new();
    t.put("MIT", text(canonical_text("MIT").unwrap_or_default()));
    let got = with_resolution(&p, |r| render_text(r, &t));
    for s in [
        "Third-party licenses",
        "- dep 1.0.0",
        "Copyright (c) 2024 Dep Author",
        "Permission is hereby granted",
        "NOTICE for dep 1.0.0",
        "dep notice body",
    ] {
        assert!(got.contains(s), "{s} is missing:\n{got}");
    }
}

#[test]
fn pieces_of_an_entry() {
    let mut out = text(">");
    push_license_line(&mut out, "MIT", "");
    push_license_line(&mut out, "MIT", "MIT");
    push_license_line(&mut out, "MIT", "MIT/X11");
    push_text_pointer(&mut out, None);
    push_text_pointer(&mut out, Some(&vec![]));
    push_text_pointer(&mut out, Some(&names(&["A", "B"])));
    push_indented(&mut out, "a\n\nb");
    assert_eq!(
        out,
        ">License: MIT\nLicense: MIT\nLicense: MIT  (upstream declares: MIT/X11)\n\nLicense text: see Part II -- A, B\n  a\n\n  b\n"
    );
}

#[test]
fn report_is_complete_json() {
    let got = with_resolution(&parts(), |r| render_json(r)).unwrap_or_else(|e| panic!("{e}"));
    assert_eq!(
        got,
        r#"{
  "licenses": [
    "MIT",
    "Zlib"
  ],
  "exceptions": [
    "LLVM-exception"
  ],
  "crates": [
    {
      "name": "dep",
      "version": "1.0.0",
      "expression": "MIT",
      "licenses": [
        "MIT"
      ],
      "authors": [
        "Dep Author <d@example.com>"
      ],
      "copyrights": [
        "Copyright (c) 2024 Dep Author"
      ],
      "notice": "dep notice body\n"
    },
    {
      "name": "abc",
      "version": "0.10.0",
      "expression": "MIT OR Apache-2.0",
      "licenses": [
        "MIT"
      ],
      "authors": [
        "Alice <alice@example.com>",
        "  "
      ],
      "copyrights": [],
      "notice": null
    },
    {
      "name": "failed",
      "version": "2.0.0",
      "expression": "",
      "licenses": [],
      "authors": [],
      "copyrights": [],
      "notice": null
    }
  ],
  "extras": [
    {
      "name": "zlib (vendored)",
      "expression": "Zlib",
      "licenses": [
        "Zlib"
      ],
      "url": "https://zlib.net",
      "copyright": "Copyright (C) 1995 Jean-loup Gailly"
    }
  ]
}"#
    );
}

#[test]
fn report_document_can_be_looked_into() {
    let v = with_resolution(&parts(), |r| report_value(r));
    assert_eq!(v["crates"][1]["name"], "abc");
    assert_eq!(v["extras"][0]["url"], "https://zlib.net");
    let mut p = parts();
    p.deps = names(&["1", "unknown"]);
    let v = with_resolution(&p, |r| report_value(r));
    assert_eq!(v["crates"].as_array().map(|a| a.len()), Some(1));
}

#[test]
fn bill_of_materials_carries_texts_and_copyright() {
    let bom = with_resolution(&parts(), |r| bom_value(r, &texts()));
    assert_eq!(bom["bomFormat"], "CycloneDX");
    assert_eq!(bom["specVersion"], "1.6");
    assert_eq!(bom["version"], 1);
    let tool = &bom["metadata"]["tools"]["components"][0];
    assert_eq!(tool["type"], "application");
    assert_eq!(tool["name"], "cargo-tribute");
    assert_eq!(tool["version"], "0.6.0");
    let dep = &bom["components"][0];
    assert_eq!(dep["type"], "library");
    assert_eq!(dep["name"], "dep");
    assert_eq!(dep["version"], "1.0.0");
    assert!(dep["purl"].is_null(), "a path dep must carry no purl");
    assert_eq!(dep["licenses"][0]["license"]["id"], "MIT");
    assert_eq!(dep["licenses"][0]["license"]["text"]["content"], "MIT TEXT\n");
    assert_eq!(dep["licenses"][0]["license"]["text"]["contentType"], "text/plain");
    assert_eq!(dep["copyright"], "Copyright (c) 2024 Dep Author");
    assert_eq!(dep["externalReferences"][0]["type"], "vcs");
    assert_eq!(dep["externalReferences"][0]["url"], "https://example.com/dep");
    assert_eq!(dep["properties"][0]["name"], "cargo-tribute:expression");
    assert_eq!(dep["properties"][0]["value"], "MIT");
    let abc = &bom["components"][1];
    assert_eq!(abc["purl"], "pkg:cargo/abc@0.10.0");
    assert_eq!(abc["copyright"], "Alice");
    assert!(abc["externalReferences"].is_null());
    let failed = &bom["components"][2];
    assert!(failed["licenses"].is_null() && failed["properties"].is_null() && failed["copyright"].is_null());
    let extra = &bom["components"][3];
    assert_eq!(extra["name"], "zlib (vendored)");
    assert_eq!(extra["externalReferences"][0]["type"], "website");
    assert!(extra["licenses"][0]["license"]["text"].is_null(), "no text, no text field");
}

#[test]
fn bill_of_materials_is_written_out() {
    let got = with_resolution(&parts(), |r| render_cyclonedx(r, &texts())).unwrap_or_else(|e| panic!("{e}"));
    assert!(got.starts_with("{\n  \"bomFormat\": \"CycloneDX\",\n  \"components\": [\n    {\n      \"copyright\": "));
    assert!(got.ends_with("\"specVersion\": \"1.6\",\n  \"version\": 1\n}"));
    let again = with_resolution(&parts(), |r| render_cyclonedx(r, &texts())).unwrap_or_else(|e| panic!("{e}"));
    assert_eq!(got, again);
}

#[test]
fn license_outside_the_list_goes_under_name() {
    let body = text("B");
    let v = license_value("LicenseRef-x", false, Some(&body));
    assert_eq!(v["license"]["name"], "LicenseRef-x");
    assert!(v["license"]["id"].is_null());
    assert_eq!(v["license"]["text"]["content"], "B");
    let v = license_value("MIT", true, None);
    assert_eq!(v["license"]["id"], "MIT");
    assert!(v["license"]["text"].is_null());
}

#[test]
fn component_copyright_falls_back_to_authors() {
    assert_eq!(cdx_copyright(&extras(&["A", "B"], &["C"], None)).as_deref(), Some("A; B"));
    assert_eq!(cdx_copyright(&extras(&[], &["C <c@x>", "", "D"], None)).as_deref(), Some("C, D"));
    assert_eq!(cdx_copyright(&extras(&[], &["  "], None)), None);
}
