use cargo_tribute::config::{parse_accept, Accept, DEFAULT_ACCEPTED};
use cargo_tribute::expression::{license_name, Expression, Node, Term};
use cargo_tribute::policy::{best, canonical_text, choose_licenses, combine, exceptions_for, prefer_license};

fn pick_with(accepted: &[&str], s: &str) -> Option<Vec<String>> {
    let acc: Vec<Accept> = accepted.iter().map(|s| parse_accept(s)).collect();
    let e = Expression::parse(s).unwrap();
    choose_licenses(&e, &acc)
}

fn pick(s: &str) -> Option<Vec<String>> {
    pick_with(&DEFAULT_ACCEPTED, s)
}

fn names(list: &[&str]) -> Vec<String> {
    list.iter().map(|s| s.to_string()).collect()
}

#[test]
fn or_picks_preferred() {
    assert_eq!(pick("MIT OR Apache-2.0"), Some(vec!["MIT".into()]));
    assert_eq!(pick("Apache-2.0 OR MIT"), Some(vec!["MIT".into()]));
    assert_eq!(pick("Zlib OR Apache-2.0 OR MIT"), Some(vec!["MIT".into()]));
}

#[test]
fn and_unions_both() {
    assert_eq!(pick("(MIT OR Apache-2.0) AND Unicode-3.0"), Some(vec!["MIT".into(), "Unicode-3.0".into()]));
}

#[test]
fn legacy_slash_is_or() {
    assert_eq!(pick("MIT/Apache-2.0"), Some(vec!["MIT".into()]));
    assert_eq!(pick("Unlicense/MIT"), Some(vec!["MIT".into()]));
}

#[test]
fn rejects_unaccepted() {
    assert_eq!(pick("GPL-3.0-only"), None);
    assert_eq!(pick("MIT AND GPL-3.0-only"), None);
}

#[test]
fn canonical_text_covers_spdx_licenses_and_exceptions() {
    // licenses beyond the default list and WITH-exception bodies both resolve.
    assert!(canonical_text("MIT").is_some());
    assert!(canonical_text("MPL-2.0").is_some());
    assert!(canonical_text("LLVM-exception").is_some());
    assert!(canonical_text("NotARealLicense").is_none());
}

#[test]
fn exceptions_collected_only_for_the_chosen_license() {
    let expr = |s: &str| Expression::parse(s).unwrap();
    let chosen = names(&["Apache-2.0"]);
    // the WITH sits on the chosen license -> collected.
    assert_eq!(exceptions_for(&expr("Apache-2.0 WITH LLVM-exception"), &chosen), vec!["LLVM-exception"]);
    // an OR whose exception-bearing side (MIT) is not the chosen one -> not collected.
    let mit_chosen = names(&["MIT"]);
    assert!(exceptions_for(&expr("(GPL-2.0 WITH GCC-exception-2.0) OR MIT"), &mit_chosen).is_empty());
}

#[test]
fn with_exception_attributes_the_base_license() {
    // `A WITH exception` is one SPDX leaf; it is accepted iff the base license is,
    // and attributes the base's text (the exception grants only extra permission).
    assert_eq!(pick("Apache-2.0 WITH LLVM-exception"), Some(vec!["Apache-2.0".into()]));
    assert_eq!(pick("GPL-3.0-only WITH Classpath-exception-2.0"), None); // base not accepted
}

#[test]
fn accepted_with_pairing_allows_only_that_pairing() {
    let acc = &["MIT", "GPL-2.0-only WITH Classpath-exception-2.0"];
    assert_eq!(pick_with(acc, "GPL-2.0-only WITH Classpath-exception-2.0"), Some(vec!["GPL-2.0-only".into()]));
    assert_eq!(pick_with(acc, "GPL-2.0-only"), None); // the pairing does not allow the bare license
    assert_eq!(pick_with(acc, "GPL-2.0-only WITH GCC-exception-2.0"), None); // nor another exception
    // preference still works: MIT (earlier) beats the pairing in an OR.
    assert_eq!(pick_with(acc, "(GPL-2.0-only WITH Classpath-exception-2.0) OR MIT"), Some(vec!["MIT".into()]));
}

#[test]
fn exception_allow_extends_accepted_per_crate() {
    // an exception appends its allow list after the accepted set.
    let acc = &["MIT", "MPL-2.0"];
    assert_eq!(pick_with(acc, "MPL-2.0"), Some(vec!["MPL-2.0".into()]));
    assert_eq!(pick_with(&["MIT"], "MPL-2.0"), None); // without it, rejected
    // appended entries lose the OR preference to global ones.
    assert_eq!(pick_with(acc, "MPL-2.0 OR MIT"), Some(vec!["MIT".into()]));
}

#[test]
fn license_reference_is_attributed_under_its_own_name() {
    assert_eq!(pick_with(&["LicenseRef-weird"], "LicenseRef-weird"), Some(names(&["LicenseRef-weird"])));
    assert_eq!(pick_with(&["MIT"], "LicenseRef-weird"), None);
    assert_eq!(
        pick_with(&["LicenseRef-weird", "MIT"], "MIT AND LicenseRef-weird"),
        Some(names(&["LicenseRef-weird", "MIT"]))
    );
}

#[test]
fn parse_gives_postfix_terms() {
    // lower-case operators of older crates are read.
    assert_eq!(pick("MIT or Apache-2.0"), Some(names(&["MIT"])));
    let e = Expression::parse("MIT AND Apache-2.0 WITH LLVM-exception").unwrap();
    assert_eq!(e.nodes.len(), 3);
    assert!(matches!(&e.nodes[0], Node::Req(t) if t.id.as_deref() == Some("MIT") && t.exception.is_none()));
    assert!(
        matches!(&e.nodes[1], Node::Req(t) if license_name(t) == "Apache-2.0" && t.exception.as_deref() == Some("LLVM-exception"))
    );
    assert!(matches!(&e.nodes[2], Node::And));
    assert!(Expression::parse("not a license").is_err());
    assert!(Expression::parse("MIT AND").is_err());
}

fn term(id: &str) -> Node {
    Node::Req(Term { id: Some(id.to_string()), text: id.to_string(), exception: None })
}

#[test]
fn nothing_is_chosen_from_a_broken_expression() {
    let acc = [parse_accept("MIT")];
    let lacking = Expression { nodes: vec![term("MIT"), Node::And] };
    assert_eq!(choose_licenses(&lacking, &acc), None);
    let empty = Expression { nodes: vec![] };
    assert_eq!(choose_licenses(&empty, &acc), None);
}

#[test]
fn a_tie_keeps_the_left_side() {
    // neither side is known to the list that ranks them.
    let a = Some(names(&["X"]));
    let b = Some(names(&["Y"]));
    assert_eq!(combine(false, a, b, &[parse_accept("MIT")]), Some(names(&["X"])));
    assert_eq!(combine(false, None, Some(names(&["Y"])), &[]), Some(names(&["Y"])));
    assert_eq!(combine(true, None, Some(names(&["Y"])), &[]), None);
    assert_eq!(best(&names(&["X"]), &[parse_accept("MIT")]), usize::MAX);
    assert_eq!(best(&names(&["Apache-2.0", "MIT"]), &[parse_accept("ISC"), parse_accept("MIT")]), 1);
}

#[test]
fn license_text_goes_before_exception_text() {
    assert_eq!(prefer_license(Some("a"), Some("b")), Some("a"));
    assert_eq!(prefer_license(None, Some("b")), Some("b"));
    assert_eq!(prefer_license(None, None), None);
    assert!(canonical_text("MIT").unwrap().contains("Permission is hereby granted"));
    assert!(canonical_text("LLVM-exception").unwrap().contains("LLVM"));
}

#[test]
fn widening_the_list_keeps_what_was_covered() {
    let before = pick_with(&["MIT"], "MIT AND MIT");
    assert_eq!(before, Some(names(&["MIT"])));
    let after = pick_with(&["MIT", "Zlib"], "MIT AND MIT");
    assert_eq!(after, before);
    // an OR that is covered stays covered, and keeps the earlier pick.
    assert_eq!(pick_with(&["MIT", "Zlib"], "Zlib OR MIT"), Some(names(&["MIT"])));
}

#[test]
fn chosen_licenses_are_enough() {
    for e in ["MIT OR Apache-2.0", "(MIT OR Apache-2.0) AND (ISC OR Zlib)", "Zlib AND (0BSD OR (MIT AND ISC))", "MIT WITH LLVM-exception"] {
        let chosen = pick(e).unwrap_or_default();
        assert!(!chosen.is_empty());
        let alone: Vec<&str> = chosen.iter().map(String::as_str).collect();
        assert_eq!(pick_with(&alone, e), Some(chosen.clone()));
    }
}
