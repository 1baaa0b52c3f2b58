//! What the machine-readable reports tell.

use vstd::prelude::*;
use crate::config::ExtraView;
use crate::graph::{package_at, PackageView};
use crate::harvest::ExtrasView;
use crate::json::{keys_distinct, present, record_json, texts_json, JsonView};
use crate::policy::{spdx_exception_text, spdx_license_text};
use crate::report::{
    bom_json, component_copyright, component_json, component_keys_differ, components_json,
    crate_json, crates_json, expression_json, extra_component_json, extra_component_keys_differ,
    extra_json, license_json, licenses_json, maybe_text, metadata_json, purl, reference_json,
    report_json, some_text,
};
use crate::resolution::{license_ids, shown_authors, ResolutionView};
use crate::scan::joined;
use crate::sets::at;

verus! {

// ---------------------------------------------------------------- records

proof fn at_push<V>(rows: Seq<(Seq<char>, V)>, k: Seq<char>, v: V, x: Seq<char>)
    ensures
        at(rows.push((k, v)), x) == match at(rows, x) {
            Some(w) => Some(w),
            None => if x == k {
                Some(v)
            } else {
                None
            },
        },
    decreases rows.len(),
{
    let s = rows.push((k, v));
    if rows.len() == 0 {
        reveal_with_fuel(at, 2);
        assert(s.drop_first() =~= Seq::<(Seq<char>, V)>::empty());
    } else {
        assert(s[0] == rows[0]);
        assert(s.drop_first() =~= rows.drop_first().push((k, v)));
        at_push(rows.drop_first(), k, v, x);
    }
}

/// A record has the fields that are given a value, under their names, and no others.
pub proof fn record_has_its_fields(slots: Seq<(Seq<char>, Option<JsonView>)>, x: Seq<char>)
    requires
        keys_distinct(slots),
    ensures
        (forall|i: int| 0 <= i < slots.len() ==> (#[trigger] slots[i]).0 != x) ==> at(present(slots), x) is None,
        forall|i: int| 0 <= i < slots.len() && (#[trigger] slots[i]).0 == x ==> at(present(slots), x) == slots[i].1,
    decreases slots.len(),
{
    if slots.len() > 0 {
        let rest = slots.drop_last();
        assert forall|i: int, j: int| 0 <= i < j < rest.len() implies (#[trigger] rest[i]).0 != (#[trigger] rest[j]).0 by {
            assert(rest[i] == slots[i] && rest[j] == slots[j]);
        }
        record_has_its_fields(rest, x);
        let n = slots.len() - 1;
        if let Some(v) = slots.last().1 {
            at_push(present(rest), slots.last().0, v, x);
        }
        if slots[n].0 == x {
            assert forall|i: int| 0 <= i < rest.len() implies (#[trigger] rest[i]).0 != x by {
                assert(rest[i] == slots[i]);
                assert(slots[i].0 != slots[n].0);
            }
        } else if forall|i: int| 0 <= i < slots.len() ==> (#[trigger] slots[i]).0 != x {
            assert forall|i: int| 0 <= i < rest.len() implies (#[trigger] rest[i]).0 != x by {
                assert(rest[i] == slots[i]);
            }
        }
        assert forall|i: int| 0 <= i < slots.len() && (#[trigger] slots[i]).0 == x implies at(present(slots), x)
            == slots[i].1 by {
            if i < n {
                assert(rest[i] == slots[i]);
            }
        }
    }
}

/// A field that takes any text.
pub open spec fn as_text(s: Seq<char>) -> Option<JsonView> {
    Some(JsonView::Str(s))
}

/// The fields of a record.
pub open spec fn fields(v: JsonView) -> Seq<(Seq<char>, JsonView)> {
    match v {
        JsonView::Obj(f) => f,
        _ => Seq::empty(),
    }
}

// ---------------------------------------------------------------- the JSON report

/// The record of a package tells its name, its version, the expression in use, the licenses
/// chosen for it, its authors, its statements and its NOTICE.
pub proof fn crate_record_tells(r: ResolutionView, id: Seq<char>, p: PackageView)
    ensures
        crate_json(r, id, p) matches JsonView::Obj(f) && {
            &&& f.len() == 7
            &&& f[0] == ("name"@, JsonView::Str(p.name))
            &&& f[1] == ("version"@, JsonView::Str(p.version))
            &&& f[2] == (
                    "expression"@,
                    JsonView::Str(
                        match at(r.effective, id) {
                            Some(e) => e,
                            None => Seq::empty(),
                        },
                    ),
                )
            &&& f[3] == (
                    "licenses"@,
                    texts_json(
                        match at(r.chosen_of, id) {
                            Some(c) => c,
                            None => Seq::empty(),
                        },
                    ),
                )
            &&& f[4] == (
                    "authors"@,
                    texts_json(
                        match at(r.extras, id) {
                            Some(x) => x.authors,
                            None => Seq::empty(),
                        },
                    ),
                )
            &&& f[5] == (
                    "copyrights"@,
                    texts_json(
                        match at(r.extras, id) {
                            Some(x) => x.copyrights,
                            None => Seq::empty(),
                        },
                    ),
                )
            &&& f[6] == (
                    "notice"@,
                    match at(r.extras, id) {
                        Some(ExtrasView { notice: Some(n), .. }) => JsonView::Str(n),
                        _ => JsonView::Null,
                    },
                )
        },
{
    reveal_with_fuel(present, 8);
}

/// The record of an extra entry tells its name, its expression, the licenses chosen for it,
/// its address and its copyright.
pub proof fn extra_record_tells(x: ExtraView, chosen: Seq<Seq<char>>)
    ensures
        extra_json(x, chosen) matches JsonView::Obj(f) && {
            &&& f.len() == 5
            &&& f[0] == ("name"@, JsonView::Str(x.name))
            &&& f[1] == ("expression"@, JsonView::Str(x.expression))
            &&& f[2] == ("licenses"@, texts_json(chosen))
            &&& f[3] == (
                    "url"@,
                    match x.url {
                        Some(u) => JsonView::Str(u),
                        None => JsonView::Null,
                    },
                )
            &&& f[4] == (
                    "copyright"@,
                    match x.copyright {
                        Some(c) => JsonView::Str(c),
                        None => JsonView::Null,
                    },
                )
        },
{
    reveal_with_fuel(present, 6);
}

/// A list of texts is a list of those texts, in order.
pub proof fn list_of_texts(s: Seq<Seq<char>>)
    ensures
        texts_json(s) matches JsonView::Arr(a) && a.len() == s.len() && forall|i: int|
            0 <= i < s.len() ==> a[i] == JsonView::Str(#[trigger] s[i]),
{
}

/// Every dependency has its record, in order; one that is no package of the graph has none.
pub proof fn each_crate_has_its_record(r: ResolutionView, a: Seq<Seq<char>>, b: Seq<Seq<char>>, id: Seq<char>)
    ensures
        crates_json(r, a + b) == crates_json(r, a) + crates_json(r, b),
        crates_json(r, seq![id]) == match package_at(r.packages, id) {
            Some(p) => seq![crate_json(r, id, p)],
            None => Seq::empty(),
        },
        crates_json(r, Seq::empty()) == Seq::<JsonView>::empty(),
    decreases b.len(),
{
    if b.len() == 0 {
        assert(a + b =~= a);
        assert(crates_json(r, a) + crates_json(r, b) =~= crates_json(r, a));
    } else {
        each_crate_has_its_record(r, a, b.drop_last(), id);
        assert((a + b).drop_last() =~= a + b.drop_last());
        assert(crates_json(r, a + b) =~= crates_json(r, a) + crates_json(r, b));
    }
    reveal_with_fuel(crates_json, 2);
    assert(seq![id].drop_last() =~= Seq::<Seq<char>>::empty());
    if let Some(p) = package_at(r.packages, id) {
        assert(crates_json(r, seq![id]) =~= seq![crate_json(r, id, p)]);
    }
}

/// The report tells the licenses, the exceptions in use, every dependency and every extra
/// entry.
pub proof fn report_tells(r: ResolutionView)
    ensures
        report_json(r) matches JsonView::Obj(f) && {
            &&& f.len() == 4
            &&& f[0] == ("licenses"@, texts_json(license_ids(r.by_license, r.extra_by_license)))
            &&& f[1] == ("exceptions"@, texts_json(r.used_exceptions))
            &&& f[2] == ("crates"@, JsonView::Arr(crates_json(r, r.deps)))
            &&& f[3].0 == "extras"@
            &&& f[3].1 matches JsonView::Arr(xs) && xs.len() == r.extra_chosen.len() && forall|i: int|
                0 <= i < xs.len() ==> #[trigger] xs[i] == extra_json(r.extra_chosen[i].0, r.extra_chosen[i].1)
        },
{
    reveal_with_fuel(present, 5);
}

// ---------------------------------------------------------------- the bill of materials

/// A license is given by its id where it is on the SPDX list and by its name otherwise, with
/// its text in full where there is one.
pub proof fn license_record_tells(id: Seq<char>, known: bool, text: Option<Seq<char>>)
    ensures
        ({
            let key = if known {
                "id"@
            } else {
                "name"@
            };
            license_json(id, known, text) == JsonView::Obj(
                seq![
                    (
                        "license"@,
                        JsonView::Obj(
                            match text {
                                Some(t) => seq![
                                    (key, JsonView::Str(id)),
                                    (
                                        "text"@,
                                        JsonView::Obj(
                                            seq![
                                                ("content"@, JsonView::Str(t)),
                                                ("contentType"@, JsonView::Str("text/plain"@)),
                                            ],
                                        ),
                                    ),
                                ],
                                None => seq![(key, JsonView::Str(id))],
                            },
                        ),
                    ),
                ],
            )
        }),
{
    reveal_with_fuel(present, 3);
    let key = if known {
        "id"@
    } else {
        "name"@
    };
    let outer = fields(license_json(id, known, text));
    assert(outer.len() == 1);
    assert(outer =~= seq![outer[0]]);
    let inner = fields(outer[0].1);
    match text {
        Some(t) => {
            assert(inner.len() == 2);
            assert(inner =~= seq![inner[0], inner[1]]);
            let body = fields(inner[1].1);
            assert(body.len() == 2);
            assert(body =~= seq![body[0], body[1]]);
        },
        None => {
            assert(inner.len() == 1);
            assert(inner =~= seq![inner[0]]);
        },
    }
}

/// Every chosen license has its record, in order: by its id exactly when the SPDX list has
/// it as a license or an exception, with the text that is shipped for it.
pub proof fn each_chosen_license_has_its_record(
    chosen: Seq<Seq<char>>,
    texts: Seq<(Seq<char>, Seq<char>)>,
)
    ensures
        licenses_json(chosen, texts) matches JsonView::Arr(a) && a.len() == chosen.len() && forall|i: int|
            0 <= i < chosen.len() ==> a[i] == license_json(
                #[trigger] chosen[i],
                spdx_license_text(chosen[i]) is Some || spdx_exception_text(chosen[i]) is Some,
                at(texts, chosen[i]),
            ),
{
}

/// The copyright of a component is all statements that were harvested for it, or the names
/// of its authors where there are none.
pub proof fn copyright_of_a_component(x: ExtrasView)
    ensures
        x.copyrights.len() > 0 ==> component_copyright(x) == Some(joined(x.copyrights, "; "@)),
        x.copyrights.len() == 0 && shown_authors(x.authors).len() > 0 ==> component_copyright(x) == Some(
            joined(shown_authors(x.authors), ", "@),
        ),
        x.copyrights.len() == 0 && shown_authors(x.authors).len() == 0 ==> component_copyright(x) is None,
{
}

/// A package of crates.io has a package URL, another none.
pub proof fn package_url_is_for_crates_io(p: PackageView)
    ensures
        p.crates_io ==> purl(p) == Some("pkg:cargo/"@ + p.name + "@"@ + p.version),
        !p.crates_io ==> purl(p) is None,
{
}

/// The component of a package tells its name, its version and that it is a library, and, as
/// far as they are known, its copyright, its repository, the licenses chosen for it, the
/// expression in use and its package URL.
pub proof fn component_tells(r: ResolutionView, texts: Seq<(Seq<char>, Seq<char>)>, id: Seq<char>, p: PackageView)
    ensures
        component_json(r, texts, id, p) is Obj,
        ({
            let f = fields(component_json(r, texts, id, p));
            &&& at(f, "name"@) == as_text(p.name)
            &&& at(f, "version"@) == as_text(p.version)
            &&& at(f, "type"@) == as_text("library"@)
            &&& at(f, "purl"@) == match purl(p) {
                Some(u) => as_text(u),
                None => None,
            }
            &&& at(f, "copyright"@) == match at(r.extras, id) {
                Some(x) => match component_copyright(x) {
                    Some(c) => as_text(c),
                    None => None,
                },
                None => None,
            }
            &&& at(f, "licenses"@) == match at(r.chosen_of, id) {
                Some(c) => Some(licenses_json(c, texts)),
                None => None,
            }
            &&& at(f, "externalReferences"@) == match p.repository {
                Some(u) => Some(
                    JsonView::Arr(
                        seq![JsonView::Obj(seq![("type"@, JsonView::Str("vcs"@)), ("url"@, JsonView::Str(u))])],
                    ),
                ),
                None => None,
            }
            &&& at(f, "properties"@) == match at(r.effective, id) {
                Some(e) => Some(
                    JsonView::Arr(
                        seq![
                            JsonView::Obj(
                                seq![
                                    ("name"@, JsonView::Str("cargo-tribute:expression"@)),
                                    ("value"@, JsonView::Str(e)),
                                ],
                            ),
                        ],
                    ),
                ),
                None => None,
            }
        }),
{
    let slots = component_slots(r, texts, id, p);
    component_keys_differ(slots);
    assert(component_json(r, texts, id, p) == record_json(slots));
    record_has_its_fields(slots, slots[0].0);
    record_has_its_fields(slots, slots[1].0);
    record_has_its_fields(slots, slots[2].0);
    record_has_its_fields(slots, slots[3].0);
    record_has_its_fields(slots, slots[4].0);
    record_has_its_fields(slots, slots[5].0);
    record_has_its_fields(slots, slots[6].0);
    record_has_its_fields(slots, slots[7].0);
    if let Some(u) = p.repository {
        pair_is_a_record("type"@, "vcs"@, "url"@, u);
    }
    if let Some(e) = at(r.effective, id) {
        pair_is_a_record("name"@, "cargo-tribute:expression"@, "value"@, e);
    }
}

proof fn pair_is_a_record(j: Seq<char>, v: Seq<char>, k: Seq<char>, w: Seq<char>)
    ensures
        record_json(seq![(j, as_text(v)), (k, as_text(w))]) == JsonView::Obj(
            seq![(j, JsonView::Str(v)), (k, JsonView::Str(w))],
        ),
{
    reveal_with_fuel(present, 3);
    let fs = present(seq![(j, as_text(v)), (k, as_text(w))]);
    assert(fs.len() == 2);
    assert(fs =~= seq![fs[0], fs[1]]);
}

spec fn component_slots(
    r: ResolutionView,
    texts: Seq<(Seq<char>, Seq<char>)>,
    id: Seq<char>,
    p: PackageView,
) -> Seq<(Seq<char>, Option<JsonView>)> {
    seq![
        (
            "copyright"@,
            match at(r.extras, id) {
                Some(x) => maybe_text(component_copyright(x)),
                None => None,
            },
        ),
        (
            "externalReferences"@,
            match p.repository {
                Some(u) => Some(reference_json("vcs"@, u)),
                None => None,
            },
        ),
        (
            "licenses"@,
            match at(r.chosen_of, id) {
                Some(c) => Some(licenses_json(c, texts)),
                None => None,
            },
        ),
        ("name"@, some_text(p.name)),
        (
            "properties"@,
            match at(r.effective, id) {
                Some(e) => Some(expression_json(e)),
                None => None,
            },
        ),
        ("purl"@, maybe_text(purl(p))),
        ("type"@, some_text("library"@)),
        ("version"@, some_text(p.version)),
    ]
}

/// The component of an extra entry tells its name, that it is a library, the licenses chosen
/// for it and its expression, and, as far as they are known, its copyright and its address.
pub proof fn extra_component_tells(x: ExtraView, chosen: Seq<Seq<char>>, texts: Seq<(Seq<char>, Seq<char>)>)
    ensures
        extra_component_json(x, chosen, texts) is Obj,
        ({
            let f = fields(extra_component_json(x, chosen, texts));
            &&& at(f, "name"@) == as_text(x.name)
            &&& at(f, "type"@) == as_text("library"@)
            &&& at(f, "licenses"@) == Some(licenses_json(chosen, texts))
            &&& at(f, "copyright"@) == match x.copyright {
                Some(c) => as_text(c),
                None => None,
            }
            &&& at(f, "externalReferences"@) == match x.url {
                Some(u) => Some(
                    JsonView::Arr(
                        seq![JsonView::Obj(seq![("type"@, JsonView::Str("website"@)), ("url"@, JsonView::Str(u))])],
                    ),
                ),
                None => None,
            }
            &&& at(f, "properties"@) == Some(
                JsonView::Arr(
                    seq![
                        JsonView::Obj(
                            seq![
                                ("name"@, JsonView::Str("cargo-tribute:expression"@)),
                                ("value"@, JsonView::Str(x.expression)),
                            ],
                        ),
                    ],
                ),
            )
        }),
{
    let slots = seq![
        ("copyright"@, maybe_text(x.copyright)),
        (
            "externalReferences"@,
            match x.url {
                Some(u) => Some(reference_json("website"@, u)),
                None => None,
            },
        ),
        ("licenses"@, Some(licenses_json(chosen, texts))),
        ("name"@, some_text(x.name)),
        ("properties"@, Some(expression_json(x.expression))),
        ("type"@, some_text("library"@)),
    ];
    extra_component_keys_differ(slots);
    assert(extra_component_json(x, chosen, texts) == record_json(slots));
    record_has_its_fields(slots, slots[0].0);
    record_has_its_fields(slots, slots[1].0);
    record_has_its_fields(slots, slots[2].0);
    record_has_its_fields(slots, slots[3].0);
    record_has_its_fields(slots, slots[4].0);
    record_has_its_fields(slots, slots[5].0);
    if let Some(u) = x.url {
        pair_is_a_record("type"@, "website"@, "url"@, u);
    }
    pair_is_a_record("name"@, "cargo-tribute:expression"@, "value"@, x.expression);
}

/// Every dependency has its component, in order; one that is no package of the graph has
/// none.
pub proof fn each_crate_is_a_component(
    r: ResolutionView,
    texts: Seq<(Seq<char>, Seq<char>)>,
    a: Seq<Seq<char>>,
    b: Seq<Seq<char>>,
    id: Seq<char>,
)
    ensures
        components_json(r, texts, a + b) == components_json(r, texts, a) + components_json(r, texts, b),
        components_json(r, texts, seq![id]) == match package_at(r.packages, id) {
            Some(p) => seq![component_json(r, texts, id, p)],
            None => Seq::empty(),
        },
        components_json(r, texts, Seq::empty()) == Seq::<JsonView>::empty(),
    decreases b.len(),
{
    if b.len() == 0 {
        assert(a + b =~= a);
        assert(components_json(r, texts, a) + components_json(r, texts, b) =~= components_json(r, texts, a));
    } else {
        each_crate_is_a_component(r, texts, a, b.drop_last(), id);
        assert((a + b).drop_last() =~= a + b.drop_last());
        assert(components_json(r, texts, a + b) =~= components_json(r, texts, a) + components_json(r, texts, b));
    }
    reveal_with_fuel(components_json, 2);
    assert(seq![id].drop_last() =~= Seq::<Seq<char>>::empty());
    if let Some(p) = package_at(r.packages, id) {
        assert(components_json(r, texts, seq![id]) =~= seq![component_json(r, texts, id, p)]);
    }
}

/// The bill of materials is one of CycloneDX 1.6 whose components are the dependencies, then
/// the extra entries, in order.
pub proof fn bill_of_materials_tells(r: ResolutionView, texts: Seq<(Seq<char>, Seq<char>)>)
    ensures
        bom_json(r, texts) matches JsonView::Obj(f) && {
            &&& f.len() == 5
            &&& f[0] == ("bomFormat"@, JsonView::Str("CycloneDX"@))
            &&& f[1].0 == "components"@
            &&& f[1].1 matches JsonView::Arr(cs) && {
                let n = components_json(r, texts, r.deps).len();
                &&& cs.len() == n + r.extra_chosen.len()
                &&& cs.take(n as int) == components_json(r, texts, r.deps)
                &&& forall|i: int|
                    0 <= i < r.extra_chosen.len() ==> cs[n + i] == extra_component_json(
                        (#[trigger] r.extra_chosen[i]).0,
                        r.extra_chosen[i].1,
                        texts,
                    )
            }
            &&& f[2] == ("metadata"@, metadata_json())
            &&& f[3] == ("specVersion"@, JsonView::Str("1.6"@))
            &&& f[4] == ("version"@, JsonView::Num(1))
        },
{
    reveal_with_fuel(present, 6);
    let f = fields(bom_json(r, texts));
    assert(f.len() == 5);
    let cs = f[1].1->Arr_0;
    let n = components_json(r, texts, r.deps).len();
    assert(cs.take(n as int) =~= components_json(r, texts, r.deps));
}

/// The bill of materials names the tool that made it, with its version.
pub proof fn metadata_names_the_tool()
    ensures
        metadata_json() == JsonView::Obj(
            seq![
                (
                    "tools"@,
                    JsonView::Obj(
                        seq![
                            (
                                "components"@,
                                JsonView::Arr(
                                    seq![
                                        JsonView::Obj(
                                            seq![
                                                ("name"@, JsonView::Str("cargo-tribute"@)),
                                                ("type"@, JsonView::Str("application"@)),
                                                ("version"@, JsonView::Str("0.6.0"@)),
                                            ],
                                        ),
                                    ],
                                ),
                            ),
                        ],
                    ),
                ),
            ],
        ),
{
    reveal_with_fuel(present, 4);
    let a = fields(metadata_json());
    assert(a.len() == 1);
    assert(a =~= seq![a[0]]);
    let b = fields(a[0].1);
    assert(b.len() == 1);
    assert(b =~= seq![b[0]]);
    let list = b[0].1->Arr_0;
    assert(list.len() == 1);
    let c = fields(list[0]);
    assert(c.len() == 3);
    assert(c =~= seq![c[0], c[1], c[2]]);
    assert(list =~= seq![list[0]]);
}

} // verus!
