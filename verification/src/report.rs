//! The attribution as JSON: a plain report, and a CycloneDX bill of materials.

use vstd::prelude::*;
use vstd::string::*;
use serde_json::Value;
use crate::config::{Extra, ExtraView};
use crate::graph::{find_package, package_at, Package, PackageView};
use crate::harvest::{Extras, ExtrasView};
use crate::json::{json_of, jsons, keys_distinct, list, number, optional, optional_json, pretty, pretty_json, record, record_json, single, single_json, slots_of, text, texts, texts_json, JsonView};
use crate::manifest::or_none;
use crate::notices::or_blank;
use crate::policy::{canonical_text, corpus_text};
use crate::resolution::{all_ids, author_list, license_ids, shown_authors, Resolution, ResolutionView};
use crate::scan::{join, joined};
use crate::sets::{at, Table};
use crate::text::{cat4, owned};

verus! {

/// The version of this program.
pub const VERSION: &'static str = "0.6.0";

/// A text in a field that is given.
pub open spec fn some_text(s: Seq<char>) -> Option<JsonView> {
    Some(JsonView::Str(s))
}

// ---------------------------------------------------------------- the report

/// The copyright statements that are known of a package.
pub open spec fn known_copyrights(x: Option<ExtrasView>) -> Seq<Seq<char>> {
    match x {
        Some(x) => x.copyrights,
        None => Seq::empty(),
    }
}

/// The authors that are known of a package.
pub open spec fn known_authors(x: Option<ExtrasView>) -> Seq<Seq<char>> {
    match x {
        Some(x) => x.authors,
        None => Seq::empty(),
    }
}

/// The NOTICE body that is known of a package.
pub open spec fn known_notice(x: Option<ExtrasView>) -> Option<Seq<char>> {
    match x {
        Some(x) => x.notice,
        None => None,
    }
}

/// A package in the report. One whose license is not accepted appears too, with no
/// resolved licenses.
pub open spec fn crate_json(r: ResolutionView, id: Seq<char>, p: PackageView) -> JsonView {
    record_json(
        seq![
            ("name"@, some_text(p.name)),
            ("version"@, some_text(p.version)),
            ("expression"@, some_text(or_blank(at(r.effective, id)))),
            ("licenses"@, Some(texts_json(or_none(at(r.chosen_of, id))))),
            ("authors"@, Some(texts_json(known_authors(at(r.extras, id))))),
            ("copyrights"@, Some(texts_json(known_copyrights(at(r.extras, id))))),
            ("notice"@, Some(optional_json(known_notice(at(r.extras, id))))),
        ],
    )
}

/// The packages of a list of ids in the report; an id without a package is left out.
pub open spec fn crates_json(r: ResolutionView, ids: Seq<Seq<char>>) -> Seq<JsonView>
    decreases ids.len(),
{
    if ids.len() == 0 {
        Seq::empty()
    } else {
        match package_at(r.packages, ids.last()) {
            Some(p) => crates_json(r, ids.drop_last()).push(crate_json(r, ids.last(), p)),
            None => crates_json(r, ids.drop_last()),
        }
    }
}

/// An extra entry in the report.
pub open spec fn extra_json(x: ExtraView, chosen: Seq<Seq<char>>) -> JsonView {
    record_json(
        seq![
            ("name"@, some_text(x.name)),
            ("expression"@, some_text(x.expression)),
            ("licenses"@, Some(texts_json(chosen))),
            ("url"@, Some(optional_json(x.url))),
            ("copyright"@, Some(optional_json(x.copyright))),
        ],
    )
}

/// The report: the licenses and exceptions in use, the packages, the extra entries.
pub open spec fn report_json(r: ResolutionView) -> JsonView {
    record_json(
        seq![
            ("licenses"@, Some(texts_json(license_ids(r.by_license, r.extra_by_license)))),
            ("exceptions"@, Some(texts_json(r.used_exceptions))),
            ("crates"@, Some(JsonView::Arr(crates_json(r, r.deps)))),
            (
                "extras"@,
                Some(
                    JsonView::Arr(
                        r.extra_chosen.map_values(
                            |e: (ExtraView, Seq<Seq<char>>)| extra_json(e.0, e.1),
                        ),
                    ),
                ),
            ),
        ],
    )
}

/// A package in the report.
fn crate_value(r: &Resolution, id: &str, p: &Package) -> (v: Value)
    ensures
        json_of(v) == crate_json(r.deep_view(), id@, p.deep_view()),
{
    let expression = match r.effective.get(id) {
        Some(e) => owned(e.as_str()),
        None => String::new(),
    };
    let nothing: Vec<String> = Vec::new();
    assert(nothing.deep_view() =~= Seq::<Seq<char>>::empty());
    let licenses = match r.chosen_of.get(id) {
        Some(c) => texts(c),
        None => texts(&nothing),
    };
    let x = r.extras.get(id);
    let authors = match x {
        Some(x) => texts(&x.authors),
        None => texts(&nothing),
    };
    let copyrights = match x {
        Some(x) => texts(&x.copyrights),
        None => texts(&nothing),
    };
    let notice = match x {
        Some(x) => match &x.notice {
            Some(n) => optional(Some(n.as_str())),
            None => optional(None),
        },
        None => optional(None),
    };
    let mut slots: Vec<(&'static str, Option<Value>)> = Vec::new();
    slots.push(("name", Some(text(p.name.as_str()))));
    slots.push(("version", Some(text(p.version.as_str()))));
    slots.push(("expression", Some(text(expression.as_str()))));
    slots.push(("licenses", Some(licenses)));
    slots.push(("authors", Some(authors)));
    slots.push(("copyrights", Some(copyrights)));
    slots.push(("notice", Some(notice)));
    proof {
        let rv = r.deep_view();
        let pv = p.deep_view();
        let s = slots_of(slots@);
        assert(s =~= seq![
            ("name"@, some_text(pv.name)),
            ("version"@, some_text(pv.version)),
            ("expression"@, some_text(or_blank(at(rv.effective, id@)))),
            ("licenses"@, Some(texts_json(or_none(at(rv.chosen_of, id@))))),
            ("authors"@, Some(texts_json(known_authors(at(rv.extras, id@))))),
            ("copyrights"@, Some(texts_json(known_copyrights(at(rv.extras, id@))))),
            ("notice"@, Some(optional_json(known_notice(at(rv.extras, id@))))),
        ]);
        crate_keys_differ(s);
    }
    record(slots)
}

fn crate_values(r: &Resolution) -> (v: Vec<Value>)
    ensures
        jsons(v@) == crates_json(r.deep_view(), r.deep_view().deps),
{
    let ghost rv = r.deep_view();
    let ghost all = rv.deps;
    let mut out: Vec<Value> = Vec::new();
    let mut i: usize = 0;
    assert(jsons(out@) =~= crates_json(rv, all.take(0)));
    while i < r.deps.len()
        invariant
            rv == r.deep_view(),
            all == rv.deps,
            i <= r.deps@.len(),
            jsons(out@) == crates_json(rv, all.take(i as int)),
        decreases r.deps.len() - i,
    {
        let ghost upto = all.take(i + 1);
        let ghost o = jsons(out@);
        assert(upto.drop_last() =~= all.take(i as int));
        assert(upto.last() == r.deps@[i as int]@);
        let id = r.deps[i].as_str();
        if let Some(k) = find_package(r.packages, id) {
            let v = crate_value(r, id, &r.packages[k]);
            let ghost j = json_of(v);
            out.push(v);
            assert(jsons(out@) =~= o.push(j));
        }
        i += 1;
    }
    assert(all.take(i as int) =~= all);
    out
}

/// An extra entry in the report.
fn extra_value(x: &Extra, chosen: &Vec<String>) -> (v: Value)
    ensures
        json_of(v) == extra_json(x.deep_view(), chosen.deep_view()),
{
    let url = match &x.url {
        Some(u) => optional(Some(u.as_str())),
        None => optional(None),
    };
    let copyright = match &x.copyright {
        Some(c) => optional(Some(c.as_str())),
        None => optional(None),
    };
    let mut slots: Vec<(&'static str, Option<Value>)> = Vec::new();
    slots.push(("name", Some(text(x.name.as_str()))));
    slots.push(("expression", Some(text(x.expression.as_str()))));
    slots.push(("licenses", Some(texts(chosen))));
    slots.push(("url", Some(url)));
    slots.push(("copyright", Some(copyright)));
    proof {
        let xv = x.deep_view();
        let s = slots_of(slots@);
        assert(s =~= seq![
            ("name"@, some_text(xv.name)),
            ("expression"@, some_text(xv.expression)),
            ("licenses"@, Some(texts_json(chosen.deep_view()))),
            ("url"@, Some(optional_json(xv.url))),
            ("copyright"@, Some(optional_json(xv.copyright))),
        ]);
        extra_keys_differ(s);
    }
    record(slots)
}

fn extra_values(xs: &Vec<(&Extra, Vec<String>)>) -> (v: Vec<Value>)
    ensures
        jsons(v@) == xs.deep_view().map_values(
            |e: (ExtraView, Seq<Seq<char>>)| extra_json(e.0, e.1),
        ),
{
    let ghost all = xs.deep_view();
    let mut out: Vec<Value> = Vec::new();
    let mut i: usize = 0;
    while i < xs.len()
        invariant
            all == xs.deep_view(),
            i <= xs@.len(),
            out@.len() == i,
            forall|j: int|
                0 <= j < i ==> json_of(#[trigger] out@[j]) == extra_json(all[j].0, all[j].1),
        decreases xs.len() - i,
    {
        assert(all[i as int] == xs@[i as int].deep_view());
        out.push(extra_value(xs[i].0, &xs[i].1));
        i += 1;
    }
    assert(jsons(out@) =~= all.map_values(
        |e: (ExtraView, Seq<Seq<char>>)| extra_json(e.0, e.1),
    ));
    out
}

/// The report as a document.
pub fn report_value(r: &Resolution) -> (v: Value)
    ensures
        json_of(v) == report_json(r.deep_view()),
{
    let ids = all_ids(r.by_license, r.extra_by_license);
    let crates = list(crate_values(r));
    let extras = list(extra_values(r.extra_chosen));
    let mut slots: Vec<(&'static str, Option<Value>)> = Vec::new();
    slots.push(("licenses", Some(texts(&ids))));
    slots.push(("exceptions", Some(texts(r.used_exceptions))));
    slots.push(("crates", Some(crates)));
    slots.push(("extras", Some(extras)));
    proof {
        let rv = r.deep_view();
        let s = slots_of(slots@);
        assert(s =~= seq![
            ("licenses"@, Some(texts_json(license_ids(rv.by_license, rv.extra_by_license)))),
            ("exceptions"@, Some(texts_json(rv.used_exceptions))),
            ("crates"@, Some(JsonView::Arr(crates_json(rv, rv.deps)))),
            (
                "extras"@,
                Some(
                    JsonView::Arr(
                        rv.extra_chosen.map_values(
                            |e: (ExtraView, Seq<Seq<char>>)| extra_json(e.0, e.1),
                        ),
                    ),
                ),
            ),
        ]);
        report_keys_differ(s);
    }
    record(slots)
}

/// The resolved attribution as JSON.
pub fn render_json(r: &Resolution) -> (res: Result<String, String>)
    ensures
        res matches Ok(s) && s@ == pretty_json(report_json(r.deep_view())),
{
    let v = report_value(r);
    pretty(&v)
}

// ---------------------------------------------------------------- CycloneDX

/// A license text.
pub open spec fn body_json(t: Seq<char>) -> JsonView {
    record_json(
        seq![("content"@, some_text(t)), ("contentType"@, some_text("text/plain"@))],
    )
}

/// The key under which a license is named: the schema takes only ids of the SPDX list
/// under `id`.
pub open spec fn license_key(known: bool) -> Seq<char> {
    if known {
        "id"@
    } else {
        "name"@
    }
}

/// A license text, where there is one.
pub open spec fn maybe_body(text: Option<Seq<char>>) -> Option<JsonView> {
    match text {
        Some(t) => Some(body_json(t)),
        None => None,
    }
}

/// The license with its full text, where there is one.
pub open spec fn license_json(id: Seq<char>, known: bool, text: Option<Seq<char>>) -> JsonView {
    record_json(
        seq![
            (
                "license"@,
                Some(
                    record_json(
                        seq![
                            (license_key(known), some_text(id)),
                            ("text"@, maybe_body(text)),
                        ],
                    ),
                ),
            ),
        ],
    )
}

/// The licenses that a component is attributed under, with their texts.
pub open spec fn licenses_json(
    chosen: Seq<Seq<char>>,
    texts: Seq<(Seq<char>, Seq<char>)>,
) -> JsonView {
    JsonView::Arr(
        chosen.map_values(
            |id: Seq<char>| license_json(id, corpus_text(id) is Some, at(texts, id)),
        ),
    )
}

/// The copyright notice of a component: its copyright statements, or else its authors.
pub open spec fn component_copyright(x: ExtrasView) -> Option<Seq<char>> {
    if x.copyrights.len() > 0 {
        Some(joined(x.copyrights, "; "@))
    } else if shown_authors(x.authors).len() > 0 {
        Some(joined(shown_authors(x.authors), ", "@))
    } else {
        None
    }
}

/// A text in a field that may be missing.
pub open spec fn maybe_text(o: Option<Seq<char>>) -> Option<JsonView> {
    match o {
        Some(s) => some_text(s),
        None => None,
    }
}

/// A reference to where a component comes from.
pub open spec fn reference_json(kind: Seq<char>, url: Seq<char>) -> JsonView {
    single_json(record_json(seq![("type"@, some_text(kind)), ("url"@, some_text(url))]))
}

/// The expression that is used for a component.
pub open spec fn expression_json(expr: Seq<char>) -> JsonView {
    single_json(
        record_json(
            seq![
                ("name"@, some_text("cargo-tribute:expression"@)),
                ("value"@, some_text(expr)),
            ],
        ),
    )
}

/// The package URL, which only a package of the registry has.
pub open spec fn purl(p: PackageView) -> Option<Seq<char>> {
    if p.crates_io {
        Some("pkg:cargo/"@ + p.name + "@"@ + p.version)
    } else {
        None
    }
}

/// A package as a component. One whose license is not accepted appears too, without
/// licenses.
pub open spec fn component_json(
    r: ResolutionView,
    texts: Seq<(Seq<char>, Seq<char>)>,
    id: Seq<char>,
    p: PackageView,
) -> JsonView {
    record_json(
        seq![
            (
                "copyright"@,
                match at(r.extras, id) {
                    Some(x) => maybe_text(component_copyright(x)),
                    None => None,
                },
            ),
            (
                "externalReferences"@,
                match p.repository {
                    Some(u) => Some(reference_json("vcs"@, u)),
                    None => None,
                },
            ),
            (
                "licenses"@,
                match at(r.chosen_of, id) {
                    Some(c) => Some(licenses_json(c, texts)),
                    None => None,
                },
            ),
            ("name"@, some_text(p.name)),
            (
                "properties"@,
                match at(r.effective, id) {
                    Some(e) => Some(expression_json(e)),
                    None => None,
                },
            ),
            ("purl"@, maybe_text(purl(p))),
            ("type"@, some_text("library"@)),
            ("version"@, some_text(p.version)),
        ],
    )
}

/// The packages of a list of ids as components; an id without a package is left out.
pub open spec fn components_json(
    r: ResolutionView,
    texts: Seq<(Seq<char>, Seq<char>)>,
    ids: Seq<Seq<char>>,
) -> Seq<JsonView>
    decreases ids.len(),
{
    if ids.len() == 0 {
        Seq::empty()
    } else {
        match package_at(r.packages, ids.last()) {
            Some(p) => components_json(r, texts, ids.drop_last()).push(
                component_json(r, texts, ids.last(), p),
            ),
            None => components_json(r, texts, ids.drop_last()),
        }
    }
}

/// An extra entry as a component.
pub open spec fn extra_component_json(
    x: ExtraView,
    chosen: Seq<Seq<char>>,
    texts: Seq<(Seq<char>, Seq<char>)>,
) -> JsonView {
    record_json(
        seq![
            ("copyright"@, maybe_text(x.copyright)),
            (
                "externalReferences"@,
                match x.url {
                    Some(u) => Some(reference_json("website"@, u)),
                    None => None,
                },
            ),
            ("licenses"@, Some(licenses_json(chosen, texts))),
            ("name"@, some_text(x.name)),
            ("properties"@, Some(expression_json(x.expression))),
            ("type"@, some_text("library"@)),
        ],
    )
}

/// What wrote the bill of materials.
pub open spec fn metadata_json() -> JsonView {
    record_json(
        seq![
            (
                "tools"@,
                Some(
                    record_json(
                        seq![
                            (
                                "components"@,
                                Some(
                                    single_json(
                                        record_json(
                                            seq![
                                                ("name"@, some_text("cargo-tribute"@)),
                                                ("type"@, some_text("application"@)),
                                                ("version"@, some_text(VERSION@)),
                                            ],
                                        ),
                                    ),
                                ),
                            ),
                        ],
                    ),
                ),
            ),
        ],
    )
}

/// The bill of materials: what wrote it, the packages and the extra entries. It carries
/// no serial number and no time, so the same tree leads to the same document.
pub open spec fn bom_json(r: ResolutionView, texts: Seq<(Seq<char>, Seq<char>)>) -> JsonView {
    record_json(
        seq![
            ("bomFormat"@, some_text("CycloneDX"@)),
            (
                "components"@,
                Some(
                    JsonView::Arr(
                        components_json(r, texts, r.deps) + r.extra_chosen.map_values(
                            |e: (ExtraView, Seq<Seq<char>>)|
                                extra_component_json(e.0, e.1, texts),
                        ),
                    ),
                ),
            ),
            ("metadata"@, Some(metadata_json())),
            ("specVersion"@, some_text("1.6"@)),
            ("version"@, Some(JsonView::Num(1))),
        ],
    )
}

fn body_value(t: &str) -> (v: Value)
    ensures
        json_of(v) == body_json(t@),
{
    let mut slots: Vec<(&'static str, Option<Value>)> = Vec::new();
    slots.push(("content", Some(text(t))));
    slots.push(("contentType", Some(text("text/plain"))));
    proof {
        let s = slots_of(slots@);
        assert(s =~= seq![
            ("content"@, some_text(t@)),
            ("contentType"@, some_text("text/plain"@)),
        ]);
        text_keys_differ(s);
    }
    record(slots)
}

/// The license with its full text, given whether its id is on the SPDX list.
pub fn license_value(id: &str, known: bool, body: Option<&String>) -> (v: Value)
    ensures
        json_of(v) == license_json(id@, known, body.deep_view()),
{
    let inner = match body {
        Some(t) => Some(body_value(t.as_str())),
        None => None,
    };
    let key = if known {
        "id"
    } else {
        "name"
    };
    let mut slots: Vec<(&'static str, Option<Value>)> = Vec::new();
    slots.push((key, Some(text(id))));
    slots.push(("text", inner));
    proof {
        let s = slots_of(slots@);
        assert(s =~= seq![
            (license_key(known), some_text(id@)),
            ("text"@, maybe_body(body.deep_view())),
        ]);
        license_keys_differ(s);
    }
    let lic = record(slots);
    let ghost j = json_of(lic);
    let mut slots: Vec<(&'static str, Option<Value>)> = Vec::new();
    slots.push(("license", Some(lic)));
    assert(slots_of(slots@) =~= seq![("license"@, Some(j))]);
    record(slots)
}

/// The licenses of a component, each chosen id with its full text.
fn cdx_licenses(chosen: &Vec<String>, bodies: &Table<String>) -> (v: Value)
    ensures
        json_of(v) == licenses_json(chosen.deep_view(), bodies.deep_view()),
{
    let ghost all = chosen.deep_view();
    let ghost tv = bodies.deep_view();
    let mut items: Vec<Value> = Vec::new();
    let mut i: usize = 0;
    while i < chosen.len()
        invariant
            all == chosen.deep_view(),
            tv == bodies.deep_view(),
            i <= chosen@.len(),
            items@.len() == i,
            forall|j: int|
                0 <= j < i ==> json_of(#[trigger] items@[j]) == license_json(
                    all[j],
                    corpus_text(all[j]) is Some,
                    at(tv, all[j]),
                ),
        decreases chosen.len() - i,
    {
        let id = chosen[i].as_str();
        assert(id@ == all[i as int]);
        let known = canonical_text(id).is_some();
        items.push(license_value(id, known, bodies.get(id)));
        i += 1;
    }
    assert(jsons(items@) =~= all.map_values(
        |id: Seq<char>| license_json(id, corpus_text(id) is Some, at(tv, id)),
    ));
    list(items)
}

/// The copyright notice of a component: its copyright statements, or else its authors.
pub fn cdx_copyright(x: &Extras) -> (r: Option<String>)
    ensures
        r.deep_view() == component_copyright(x.deep_view()),
{
    if x.copyrights.len() > 0 {
        return Some(join(&x.copyrights, "; "));
    }
    let names = author_list(&x.authors);
    if names.len() > 0 {
        Some(join(&names, ", "))
    } else {
        None
    }
}

fn reference_value(kind: &str, url: &str) -> (v: Value)
    ensures
        json_of(v) == reference_json(kind@, url@),
{
    let mut slots: Vec<(&'static str, Option<Value>)> = Vec::new();
    slots.push(("type", Some(text(kind))));
    slots.push(("url", Some(text(url))));
    proof {
        let s = slots_of(slots@);
        assert(s =~= seq![("type"@, some_text(kind@)), ("url"@, some_text(url@))]);
        reference_keys_differ(s);
    }
    single(record(slots))
}

fn expression_value(expr: &str) -> (v: Value)
    ensures
        json_of(v) == expression_json(expr@),
{
    let mut slots: Vec<(&'static str, Option<Value>)> = Vec::new();
    slots.push(("name", Some(text("cargo-tribute:expression"))));
    slots.push(("value", Some(text(expr))));
    proof {
        let s = slots_of(slots@);
        assert(s =~= seq![
            ("name"@, some_text("cargo-tribute:expression"@)),
            ("value"@, some_text(expr@)),
        ]);
        property_keys_differ(s);
    }
    single(record(slots))
}

fn component_value(r: &Resolution, bodies: &Table<String>, id: &str, p: &Package) -> (v: Value)
    ensures
        json_of(v) == component_json(r.deep_view(), bodies.deep_view(), id@, p.deep_view()),
{
    let copyright = match r.extras.get(id) {
        Some(x) => match cdx_copyright(x) {
            Some(c) => Some(text(c.as_str())),
            None => None,
        },
        None => None,
    };
    let references = match &p.repository {
        Some(u) => Some(reference_value("vcs", u.as_str())),
        None => None,
    };
    let licenses = match r.chosen_of.get(id) {
        Some(c) => Some(cdx_licenses(c, bodies)),
        None => None,
    };
    let properties = match r.effective.get(id) {
        Some(e) => Some(expression_value(e.as_str())),
        None => None,
    };
    let url = if p.crates_io {
        let u = cat4("pkg:cargo/", p.name.as_str(), "@", p.version.as_str());
        Some(text(u.as_str()))
    } else {
        None
    };
    let mut slots: Vec<(&'static str, Option<Value>)> = Vec::new();
    slots.push(("copyright", copyright));
    slots.push(("externalReferences", references));
    slots.push(("licenses", licenses));
    slots.push(("name", Some(text(p.name.as_str()))));
    slots.push(("properties", properties));
    slots.push(("purl", url));
    slots.push(("type", Some(text("library"))));
    slots.push(("version", Some(text(p.version.as_str()))));
    proof {
        let rv = r.deep_view();
        let pv = p.deep_view();
        let tv = bodies.deep_view();
        let s = slots_of(slots@);
        assert(s =~= seq![
            (
                "copyright"@,
                match at(rv.extras, id@) {
                    Some(x) => maybe_text(component_copyright(x)),
                    None => None,
                },
            ),
            (
                "externalReferences"@,
                match pv.repository {
                    Some(u) => Some(reference_json("vcs"@, u)),
                    None => None,
                },
            ),
            (
                "licenses"@,
                match at(rv.chosen_of, id@) {
                    Some(c) => Some(licenses_json(c, tv)),
                    None => None,
                },
            ),
            ("name"@, some_text(pv.name)),
            (
                "properties"@,
                match at(rv.effective, id@) {
                    Some(e) => Some(expression_json(e)),
                    None => None,
                },
            ),
            ("purl"@, maybe_text(purl(pv))),
            ("type"@, some_text("library"@)),
            ("version"@, some_text(pv.version)),
        ]);
        component_keys_differ(s);
    }
    record(slots)
}

fn extra_component_value(x: &Extra, chosen: &Vec<String>, bodies: &Table<String>) -> (v: Value)
    ensures
        json_of(v) == extra_component_json(
            x.deep_view(),
            chosen.deep_view(),
            bodies.deep_view(),
        ),
{
    let copyright = match &x.copyright {
        Some(c) => Some(text(c.as_str())),
        None => None,
    };
    let references = match &x.url {
        Some(u) => Some(reference_value("website", u.as_str())),
        None => None,
    };
    let mut slots: Vec<(&'static str, Option<Value>)> = Vec::new();
    slots.push(("copyright", copyright));
    slots.push(("externalReferences", references));
    slots.push(("licenses", Some(cdx_licenses(chosen, bodies))));
    slots.push(("name", Some(text(x.name.as_str()))));
    slots.push(("properties", Some(expression_value(x.expression.as_str()))));
    slots.push(("type", Some(text("library"))));
    proof {
        let xv = x.deep_view();
        let s = slots_of(slots@);
        assert(s =~= seq![
            ("copyright"@, maybe_text(xv.copyright)),
            (
                "externalReferences"@,
                match xv.url {
                    Some(u) => Some(reference_json("website"@, u)),
                    None => None,
                },
            ),
            ("licenses"@, Some(licenses_json(chosen.deep_view(), bodies.deep_view()))),
            ("name"@, some_text(xv.name)),
            ("properties"@, Some(expression_json(xv.expression))),
            ("type"@, some_text("library"@)),
        ]);
        extra_component_keys_differ(s);
    }
    record(slots)
}

fn component_values(r: &Resolution, bodies: &Table<String>) -> (v: Vec<Value>)
    ensures
        jsons(v@) == components_json(r.deep_view(), bodies.deep_view(), r.deep_view().deps)
            + r.deep_view().extra_chosen.map_values(
            |e: (ExtraView, Seq<Seq<char>>)| extra_component_json(e.0, e.1, bodies.deep_view()),
        ),
{
    let ghost rv = r.deep_view();
    let ghost tv = bodies.deep_view();
    let ghost all = rv.deps;
    let mut out: Vec<Value> = Vec::new();
    let mut i: usize = 0;
    assert(jsons(out@) =~= components_json(rv, tv, all.take(0)));
    while i < r.deps.len()
        invariant
            rv == r.deep_view(),
            tv == bodies.deep_view(),
            all == rv.deps,
            i <= r.deps@.len(),
            jsons(out@) == components_json(rv, tv, all.take(i as int)),
        decreases r.deps.len() - i,
    {
        let ghost upto = all.take(i + 1);
        let ghost o = jsons(out@);
        assert(upto.drop_last() =~= all.take(i as int));
        assert(upto.last() == r.deps@[i as int]@);
        let id = r.deps[i].as_str();
        if let Some(k) = find_package(r.packages, id) {
            let v = component_value(r, bodies, id, &r.packages[k]);
            let ghost j = json_of(v);
            out.push(v);
            assert(jsons(out@) =~= o.push(j));
        }
        i += 1;
    }
    assert(all.take(i as int) =~= all);
    let ghost first = jsons(out@);
    let ghost xs = rv.extra_chosen;
    let ghost one = |e: (ExtraView, Seq<Seq<char>>)| extra_component_json(e.0, e.1, tv);
    let mut k: usize = 0;
    assert(first + xs.take(0).map_values(one) =~= first);
    while k < r.extra_chosen.len()
        invariant
            rv == r.deep_view(),
            tv == bodies.deep_view(),
            xs == rv.extra_chosen,
            one == (|e: (ExtraView, Seq<Seq<char>>)| extra_component_json(e.0, e.1, tv)),
            k <= r.extra_chosen@.len(),
            jsons(out@) == first + xs.take(k as int).map_values(one),
        decreases r.extra_chosen.len() - k,
    {
        let ghost o = jsons(out@);
        assert(xs[k as int] == r.extra_chosen@[k as int].deep_view());
        let v = extra_component_value(r.extra_chosen[k].0, &r.extra_chosen[k].1, bodies);
        let ghost j = json_of(v);
        out.push(v);
        assert(jsons(out@) =~= o.push(j));
        assert(first + xs.take(k + 1).map_values(one) =~= (first + xs.take(k as int).map_values(
            one,
        )).push(one(xs[k as int])));
        k += 1;
    }
    assert(xs.take(k as int) =~= xs);
    out
}

fn metadata_value() -> (v: Value)
    ensures
        json_of(v) == metadata_json(),
{
    let mut slots: Vec<(&'static str, Option<Value>)> = Vec::new();
    slots.push(("name", Some(text("cargo-tribute"))));
    slots.push(("type", Some(text("application"))));
    slots.push(("version", Some(text(VERSION))));
    proof {
        let s = slots_of(slots@);
        assert(s =~= seq![
            ("name"@, some_text("cargo-tribute"@)),
            ("type"@, some_text("application"@)),
            ("version"@, some_text(VERSION@)),
        ]);
        tool_keys_differ(s);
    }
    let tool = single(record(slots));
    let ghost j = json_of(tool);
    let mut slots: Vec<(&'static str, Option<Value>)> = Vec::new();
    slots.push(("components", Some(tool)));
    assert(slots_of(slots@) =~= seq![("components"@, Some(j))]);
    let tools = record(slots);
    let ghost j = json_of(tools);
    let mut slots: Vec<(&'static str, Option<Value>)> = Vec::new();
    slots.push(("tools", Some(tools)));
    assert(slots_of(slots@) =~= seq![("tools"@, Some(j))]);
    record(slots)
}

/// The bill of materials as a document.
pub fn bom_value(r: &Resolution, bodies: &Table<String>) -> (v: Value)
    ensures
        json_of(v) == bom_json(r.deep_view(), bodies.deep_view()),
{
    let components = list(component_values(r, bodies));
    let mut slots: Vec<(&'static str, Option<Value>)> = Vec::new();
    slots.push(("bomFormat", Some(text("CycloneDX"))));
    slots.push(("components", Some(components)));
    slots.push(("metadata", Some(metadata_value())));
    slots.push(("specVersion", Some(text("1.6"))));
    slots.push(("version", Some(number(1))));
    proof {
        let rv = r.deep_view();
        let tv = bodies.deep_view();
        let s = slots_of(slots@);
        assert(s =~= seq![
            ("bomFormat"@, some_text("CycloneDX"@)),
            (
                "components"@,
                Some(
                    JsonView::Arr(
                        components_json(rv, tv, rv.deps) + rv.extra_chosen.map_values(
                            |e: (ExtraView, Seq<Seq<char>>)| extra_component_json(e.0, e.1, tv),
                        ),
                    ),
                ),
            ),
            ("metadata"@, Some(metadata_json())),
            ("specVersion"@, some_text("1.6"@)),
            ("version"@, Some(JsonView::Num(1))),
        ]);
        bom_keys_differ(s);
    }
    record(slots)
}

/// CycloneDX 1.6 JSON with license texts and the copyright of each component.
pub fn render_cyclonedx(r: &Resolution, texts: &Table<String>) -> (res: Result<String, String>)
    ensures
        res matches Ok(s) && s@ == pretty_json(bom_json(r.deep_view(), texts.deep_view())),
{
    let v = bom_value(r, texts);
    pretty(&v)
}

// ---------------------------------------------------------------- keys

/// The keys of a package in the report differ.
pub(crate) proof fn crate_keys_differ(s: Seq<(Seq<char>, Option<JsonView>)>)
    requires
        s.len() == 7,
        s[0].0 == "name"@,
        s[1].0 == "version"@,
        s[2].0 == "expression"@,
        s[3].0 == "licenses"@,
        s[4].0 == "authors"@,
        s[5].0 == "copyrights"@,
        s[6].0 == "notice"@,
    ensures
        keys_distinct(s),
{
    reveal_strlit("name");
    reveal_strlit("version");
    reveal_strlit("expression");
    reveal_strlit("licenses");
    reveal_strlit("authors");
    reveal_strlit("copyrights");
    reveal_strlit("notice");
    assert("name"@.len() == 4);
    assert("version"@.len() == 7);
    assert("expression"@.len() == 10);
    assert("licenses"@.len() == 8);
    assert("authors"@.len() == 7);
    assert("copyrights"@.len() == 10);
    assert("notice"@.len() == 6);
    assert("version"@[0] != "authors"@[0]);
    assert("expression"@[0] != "copyrights"@[0]);
    assert forall|i: int, j: int| 0 <= i < j < s.len() implies (#[trigger] s[i]).0 != (
    #[trigger] s[j]).0 by {
        assert(i == 0 || i == 1 || i == 2 || i == 3 || i == 4 || i == 5 || i == 6);
        assert(j == 0 || j == 1 || j == 2 || j == 3 || j == 4 || j == 5 || j == 6);
    }
}

/// The keys of an extra entry in the report differ.
pub(crate) proof fn extra_keys_differ(s: Seq<(Seq<char>, Option<JsonView>)>)
    requires
        s.len() == 5,
        s[0].0 == "name"@,
        s[1].0 == "expression"@,
        s[2].0 == "licenses"@,
        s[3].0 == "url"@,
        s[4].0 == "copyright"@,
    ensures
        keys_distinct(s),
{
    reveal_strlit("name");
    reveal_strlit("expression");
    reveal_strlit("licenses");
    reveal_strlit("url");
    reveal_strlit("copyright");
    assert("name"@.len() == 4);
    assert("expression"@.len() == 10);
    assert("licenses"@.len() == 8);
    assert("url"@.len() == 3);
    assert("copyright"@.len() == 9);
    assert forall|i: int, j: int| 0 <= i < j < s.len() implies (#[trigger] s[i]).0 != (
    #[trigger] s[j]).0 by {
        assert(i == 0 || i == 1 || i == 2 || i == 3 || i == 4);
        assert(j == 0 || j == 1 || j == 2 || j == 3 || j == 4);
    }
}

/// The keys of the report differ.
pub(crate) proof fn report_keys_differ(s: Seq<(Seq<char>, Option<JsonView>)>)
    requires
        s.len() == 4,
        s[0].0 == "licenses"@,
        s[1].0 == "exceptions"@,
        s[2].0 == "crates"@,
        s[3].0 == "extras"@,
    ensures
        keys_distinct(s),
{
    reveal_strlit("licenses");
    reveal_strlit("exceptions");
    reveal_strlit("crates");
    reveal_strlit("extras");
    assert("licenses"@.len() == 8);
    assert("exceptions"@.len() == 10);
    assert("crates"@.len() == 6);
    assert("extras"@.len() == 6);
    assert("crates"@[0] != "extras"@[0]);
    assert forall|i: int, j: int| 0 <= i < j < s.len() implies (#[trigger] s[i]).0 != (
    #[trigger] s[j]).0 by {
        assert(i == 0 || i == 1 || i == 2 || i == 3);
        assert(j == 0 || j == 1 || j == 2 || j == 3);
    }
}

/// The keys of a license text differ.
pub(crate) proof fn text_keys_differ(s: Seq<(Seq<char>, Option<JsonView>)>)
    requires
        s.len() == 2,
        s[0].0 == "content"@,
        s[1].0 == "contentType"@,
    ensures
        keys_distinct(s),
{
    reveal_strlit("content");
    reveal_strlit("contentType");
    assert("content"@.len() == 7);
    assert("contentType"@.len() == 11);
    assert forall|i: int, j: int| 0 <= i < j < s.len() implies (#[trigger] s[i]).0 != (
    #[trigger] s[j]).0 by {
        assert(i == 0 || i == 1);
        assert(j == 0 || j == 1);
    }
}

/// The keys of a reference differ.
pub(crate) proof fn reference_keys_differ(s: Seq<(Seq<char>, Option<JsonView>)>)
    requires
        s.len() == 2,
        s[0].0 == "type"@,
        s[1].0 == "url"@,
    ensures
        keys_distinct(s),
{
    reveal_strlit("type");
    reveal_strlit("url");
    assert("type"@.len() == 4);
    assert("url"@.len() == 3);
    assert forall|i: int, j: int| 0 <= i < j < s.len() implies (#[trigger] s[i]).0 != (
    #[trigger] s[j]).0 by {
        assert(i == 0 || i == 1);
        assert(j == 0 || j == 1);
    }
}

/// The keys of a property differ.
pub(crate) proof fn property_keys_differ(s: Seq<(Seq<char>, Option<JsonView>)>)
    requires
        s.len() == 2,
        s[0].0 == "name"@,
        s[1].0 == "value"@,
    ensures
        keys_distinct(s),
{
    reveal_strlit("name");
    reveal_strlit("value");
    assert("name"@.len() == 4);
    assert("value"@.len() == 5);
    assert forall|i: int, j: int| 0 <= i < j < s.len() implies (#[trigger] s[i]).0 != (
    #[trigger] s[j]).0 by {
        assert(i == 0 || i == 1);
        assert(j == 0 || j == 1);
    }
}

/// The keys of a component differ.
pub(crate) proof fn component_keys_differ(s: Seq<(Seq<char>, Option<JsonView>)>)
    requires
        s.len() == 8,
        s[0].0 == "copyright"@,
        s[1].0 == "externalReferences"@,
        s[2].0 == "licenses"@,
        s[3].0 == "name"@,
        s[4].0 == "properties"@,
        s[5].0 == "purl"@,
        s[6].0 == "type"@,
        s[7].0 == "version"@,
    ensures
        keys_distinct(s),
{
    reveal_strlit("copyright");
    reveal_strlit("externalReferences");
    reveal_strlit("licenses");
    reveal_strlit("name");
    reveal_strlit("properties");
    reveal_strlit("purl");
    reveal_strlit("type");
    reveal_strlit("version");
    assert("copyright"@.len() == 9);
    assert("externalReferences"@.len() == 18);
    assert("licenses"@.len() == 8);
    assert("name"@.len() == 4);
    assert("properties"@.len() == 10);
    assert("purl"@.len() == 4);
    assert("type"@.len() == 4);
    assert("version"@.len() == 7);
    assert("name"@[0] != "purl"@[0]);
    assert("name"@[0] != "type"@[0]);
    assert("purl"@[0] != "type"@[0]);
    assert forall|i: int, j: int| 0 <= i < j < s.len() implies (#[trigger] s[i]).0 != (
    #[trigger] s[j]).0 by {
        assert(i == 0 || i == 1 || i == 2 || i == 3 || i == 4 || i == 5 || i == 6 || i == 7);
        assert(j == 0 || j == 1 || j == 2 || j == 3 || j == 4 || j == 5 || j == 6 || j == 7);
    }
}

/// The keys of an extra entry's component differ.
pub(crate) proof fn extra_component_keys_differ(s: Seq<(Seq<char>, Option<JsonView>)>)
    requires
        s.len() == 6,
        s[0].0 == "copyright"@,
        s[1].0 == "externalReferences"@,
        s[2].0 == "licenses"@,
        s[3].0 == "name"@,
        s[4].0 == "properties"@,
        s[5].0 == "type"@,
    ensures
        keys_distinct(s),
{
    reveal_strlit("copyright");
    reveal_strlit("externalReferences");
    reveal_strlit("licenses");
    reveal_strlit("name");
    reveal_strlit("properties");
    reveal_strlit("type");
    assert("copyright"@.len() == 9);
    assert("externalReferences"@.len() == 18);
    assert("licenses"@.len() == 8);
    assert("name"@.len() == 4);
    assert("properties"@.len() == 10);
    assert("type"@.len() == 4);
    assert("name"@[0] != "type"@[0]);
    assert forall|i: int, j: int| 0 <= i < j < s.len() implies (#[trigger] s[i]).0 != (
    #[trigger] s[j]).0 by {
        assert(i == 0 || i == 1 || i == 2 || i == 3 || i == 4 || i == 5);
        assert(j == 0 || j == 1 || j == 2 || j == 3 || j == 4 || j == 5);
    }
}

/// The keys of a tool differ.
pub(crate) proof fn tool_keys_differ(s: Seq<(Seq<char>, Option<JsonView>)>)
    requires
        s.len() == 3,
        s[0].0 == "name"@,
        s[1].0 == "type"@,
        s[2].0 == "version"@,
    ensures
        keys_distinct(s),
{
    reveal_strlit("name");
    reveal_strlit("type");
    reveal_strlit("version");
    assert("name"@.len() == 4);
    assert("type"@.len() == 4);
    assert("version"@.len() == 7);
    assert("name"@[0] != "type"@[0]);
    assert forall|i: int, j: int| 0 <= i < j < s.len() implies (#[trigger] s[i]).0 != (
    #[trigger] s[j]).0 by {
        assert(i == 0 || i == 1 || i == 2);
        assert(j == 0 || j == 1 || j == 2);
    }
}

/// The keys of the bill of materials differ.
pub(crate) proof fn bom_keys_differ(s: Seq<(Seq<char>, Option<JsonView>)>)
    requires
        s.len() == 5,
        s[0].0 == "bomFormat"@,
        s[1].0 == "components"@,
        s[2].0 == "metadata"@,
        s[3].0 == "specVersion"@,
        s[4].0 == "version"@,
    ensures
        keys_distinct(s),
{
    reveal_strlit("bomFormat");
    reveal_strlit("components");
    reveal_strlit("metadata");
    reveal_strlit("specVersion");
    reveal_strlit("version");
    assert("bomFormat"@.len() == 9);
    assert("components"@.len() == 10);
    assert("metadata"@.len() == 8);
    assert("specVersion"@.len() == 11);
    assert("version"@.len() == 7);
    assert forall|i: int, j: int| 0 <= i < j < s.len() implies (#[trigger] s[i]).0 != (
    #[trigger] s[j]).0 by {
        assert(i == 0 || i == 1 || i == 2 || i == 3 || i == 4);
        assert(j == 0 || j == 1 || j == 2 || j == 3 || j == 4);
    }
}

/// The keys of a license differ.
pub(crate) proof fn license_keys_differ(s: Seq<(Seq<char>, Option<JsonView>)>)
    requires
        s.len() == 2,
        s[0].0 == "id"@ || s[0].0 == "name"@,
        s[1].0 == "text"@,
    ensures
        keys_distinct(s),
{
    reveal_strlit("id");
    reveal_strlit("name");
    reveal_strlit("text");
    assert("id"@.len() == 2);
    assert("text"@.len() == 4);
    assert("name"@[0] != "text"@[0]);
}

} // verus!
