//! What the notices document tells.

use vstd::prelude::*;
use crate::config::ExtraView;
use crate::graph::PackageView;
use crate::harvest::ExtrasView;
use crate::laws::texts::{between, free_of, joined_holds_each, joined_reads_back, part_of_part};
use crate::notices::{
    ended, extra_entries, extra_entry, holders, holders_part, indented, license_line, listed_lines,
    notice_part, notices_of, or_blank, package_entries, package_entry, rule, text_entries,
    text_entry,
};
use crate::resolution::{arranged, arranged_holds_the_same, packages_of, source_url, ResolutionView};
use crate::scan::{contained_behind, contained_stays, contains, joined, lines_of};
use crate::sets::at;

verus! {

// ---------------------------------------------------------------- pieces of an entry

/// A title between two rules of eighty characters, set off by an empty line.
pub open spec fn under_rules(c: char, title: Seq<char>) -> Seq<char> {
    "\n"@ + Seq::new(80, |i: int| c) + "\n"@ + title + "\n"@ + Seq::new(80, |i: int| c) + "\n"@
}

/// A line set in by two blanks; an empty one stays empty.
pub open spec fn set_in(line: Seq<char>) -> Seq<char> {
    if line.len() == 0 {
        "\n"@
    } else {
        "  "@ + line + "\n"@
    }
}

/// Every line of a text is set in, in order.
pub proof fn each_line_is_set_in(ls: Seq<Seq<char>>)
    ensures
        indented(ls) == joined(Seq::new(ls.len(), |i: int| set_in(ls[i])), Seq::empty()),
    decreases ls.len(),
{
    let all = Seq::new(ls.len(), |i: int| set_in(ls[i]));
    if ls.len() > 0 {
        let rest = ls.drop_last();
        each_line_is_set_in(rest);
        let less = Seq::new(rest.len(), |i: int| set_in(rest[i]));
        assert(all.drop_last() =~= less);
        assert(indented(ls) =~= indented(rest) + set_in(ls.last()));
        if ls.len() == 1 {
            assert(joined(less, Seq::empty()) =~= Seq::<char>::empty());
            assert(indented(ls) =~= all[0]);
        } else {
            assert(joined(all, Seq::empty()) =~= joined(less, Seq::empty()) + all.last());
        }
    }
}

/// Every holder stands on a line of its own, in order.
pub proof fn each_holder_has_a_line(hs: Seq<Seq<char>>)
    ensures
        listed_lines(hs) == joined(Seq::new(hs.len(), |i: int| "  "@ + hs[i] + "\n"@), Seq::empty()),
    decreases hs.len(),
{
    let all = Seq::new(hs.len(), |i: int| "  "@ + hs[i] + "\n"@);
    if hs.len() > 0 {
        let rest = hs.drop_last();
        each_holder_has_a_line(rest);
        let less = Seq::new(rest.len(), |i: int| "  "@ + rest[i] + "\n"@);
        assert(all.drop_last() =~= less);
        assert(listed_lines(hs) =~= listed_lines(rest) + ("  "@ + hs.last() + "\n"@));
        if hs.len() == 1 {
            assert(joined(less, Seq::empty()) =~= Seq::<char>::empty());
            assert(listed_lines(hs) =~= all[0]);
        } else {
            assert(joined(all, Seq::empty()) =~= joined(less, Seq::empty()) + all.last());
        }
    }
}

/// What upstream declares is named behind the stated license exactly when it is given and
/// is something else.
pub proof fn upstream_is_named_where_it_differs(chosen: Seq<char>, upstream: Seq<char>)
    ensures
        license_line(chosen, upstream) == "License: "@ + chosen + (if upstream.len() > 0 && upstream != chosen {
            "  (upstream declares: "@ + upstream + ")\n"@
        } else {
            "\n"@
        }),
{
    assert("License: "@ + chosen + "  (upstream declares: "@ + upstream + ")\n"@ =~= "License: "@ + chosen + (
    "  (upstream declares: "@ + upstream + ")\n"@));
}

proof fn regrouped(h: Seq<char>, n: Seq<char>, l: Seq<char>, s: Seq<char>, a: Seq<char>)
    ensures
        h + n + (l + s + a) == h + (n + l) + s + a,
        h + n + l == h + (n + l),
{
    assert(h + n + (l + s + a) =~= h + (n + l) + s + a);
    assert(h + n + l =~= h + (n + l));
}

proof fn front_part(a: Seq<char>, p: Seq<char>, q: Seq<char>)
    requires
        contains(a, p),
    ensures
        contains(a + q, p),
        contains(q + a, p),
{
    contained_stays(a, q, p);
    contained_behind(q, a, p);
}

// ---------------------------------------------------------------- the entry of a package

proof fn license_part(r: ResolutionView, p: PackageView, stated: Seq<char>) -> (a: Seq<char>)
    ensures
        a == match at(r.effective, p.id) {
            Some(e) if e.len() > 0 && e != stated => "  (upstream declares: "@ + e + ")\n"@,
            _ => "\n"@,
        },
        license_line(stated, or_blank(at(r.effective, p.id))) == "License: "@ + stated + a,
{
    upstream_is_named_where_it_differs(stated, or_blank(at(r.effective, p.id)));
    match at(r.effective, p.id) {
        Some(e) if e.len() > 0 && e != stated => "  (upstream declares: "@ + e + ")\n"@,
        _ => "\n"@,
    }
}

proof fn holders_of_entry(r: ResolutionView, p: PackageView) -> (b: Seq<char>)
    ensures
        b == match at(r.extras, p.id) {
            Some(x) if x.copyrights.len() > 0 => "\nCopyright notice:\n"@ + joined(
                Seq::new(x.copyrights.len(), |i: int| "  "@ + x.copyrights[i] + "\n"@),
                Seq::empty(),
            ),
            Some(x) if x.authors.len() > 0 => "\nCopyright notice:\n"@ + joined(
                Seq::new(x.authors.len(), |i: int| "  "@ + x.authors[i] + "\n"@),
                Seq::empty(),
            ),
            _ => Seq::empty(),
        },
        b == holders_part(holders(at(r.extras, p.id))),
{
    if let Some(x) = at(r.extras, p.id) {
        each_holder_has_a_line(x.copyrights);
        each_holder_has_a_line(x.authors);
    }
    holders_part(holders(at(r.extras, p.id)))
}

proof fn notice_of_entry(r: ResolutionView, p: PackageView) -> (d: Seq<char>)
    ensures
        d == match at(r.extras, p.id) {
            Some(ExtrasView { notice: Some(n), .. }) => "\nNOTICE for "@ + p.name + " "@ + p.version
                + " (reproduced as shipped):\n"@ + joined(
                Seq::new(lines_of(n).len(), |i: int| set_in(lines_of(n)[i])),
                Seq::empty(),
            ),
            _ => Seq::empty(),
        },
        d == notice_part(p, at(r.extras, p.id)),
{
    if let Some(x) = at(r.extras, p.id) {
        if let Some(n) = x.notice {
            each_line_is_set_in(lines_of(n));
            assert("\nNOTICE for "@ + (p.name + " "@ + p.version) =~= "\nNOTICE for "@ + p.name + " "@ + p.version);
        }
    }
    notice_part(p, at(r.extras, p.id))
}

/// The entry of a package has its name and version between rules, its source, its license,
/// then its holders, where the license texts stand, and its NOTICE, as far as there are any.
pub proof fn entry_has_its_parts(r: ResolutionView, p: PackageView, chosen: Seq<Seq<char>>) -> (parts: (
    Seq<char>,
    Seq<char>,
    Seq<char>,
    Seq<char>,
))
    requires
        at(r.chosen_of, p.id) == Some(chosen) || at(r.chosen_of, p.id) is None && chosen.len() == 0,
    ensures
        package_entry(r, p) == under_rules('-', "- "@ + p.name + " "@ + p.version) + "Source:  "@ + source_url(p)
            + "\nLicense: "@ + joined(chosen, " AND "@) + parts.0 + parts.1 + parts.2 + parts.3,
        parts.0 == match at(r.effective, p.id) {
            Some(e) if e.len() > 0 && e != joined(chosen, " AND "@) => "  (upstream declares: "@ + e + ")\n"@,
            _ => "\n"@,
        },
        parts.1 == match at(r.extras, p.id) {
            Some(x) if x.copyrights.len() > 0 => "\nCopyright notice:\n"@ + joined(
                Seq::new(x.copyrights.len(), |i: int| "  "@ + x.copyrights[i] + "\n"@),
                Seq::empty(),
            ),
            Some(x) if x.authors.len() > 0 => "\nCopyright notice:\n"@ + joined(
                Seq::new(x.authors.len(), |i: int| "  "@ + x.authors[i] + "\n"@),
                Seq::empty(),
            ),
            _ => Seq::empty(),
        },
        parts.2 == if chosen.len() > 0 {
            "\nLicense text: see Part II -- "@ + joined(chosen, ", "@) + "\n"@
        } else {
            Seq::empty()
        },
        parts.3 == match at(r.extras, p.id) {
            Some(ExtrasView { notice: Some(n), .. }) => "\nNOTICE for "@ + p.name + " "@ + p.version
                + " (reproduced as shipped):\n"@ + joined(
                Seq::new(lines_of(n).len(), |i: int| set_in(lines_of(n)[i])),
                Seq::empty(),
            ),
            _ => Seq::empty(),
        },
{
    assert(chosen.len() == 0 ==> chosen =~= Seq::<Seq<char>>::empty());
    let stated = joined(chosen, " AND "@);
    let a = license_part(r, p, stated);
    let b = holders_of_entry(r, p);
    let c: Seq<char> = if chosen.len() > 0 {
        "\nLicense text: see Part II -- "@ + joined(chosen, ", "@) + "\n"@
    } else {
        Seq::empty()
    };
    let d = notice_of_entry(r, p);
    assert("- "@ + (p.name + " "@ + p.version) =~= "- "@ + p.name + " "@ + p.version);
    assert(rule('-') =~= Seq::new(80, |i: int| '-'));
    let head = under_rules('-', "- "@ + p.name + " "@ + p.version) + "Source:  "@ + source_url(p);
    regrouped(head, "\n"@, "License: "@, stated, a);
    assert("\n"@ + "License: "@ == "\nLicense: "@) by {
        reveal_strlit("\n");
        reveal_strlit("License: ");
        reveal_strlit("\nLicense: ");
        assert("\n"@ + "License: "@ =~= "\nLicense: "@);
    }
    (a, b, c, d)
}

/// The license that the entry of a package states is the conjunction of all that were
/// chosen for it: the text behind `License: ` on its line splits at ` AND ` into exactly
/// those, in order, and into nothing else.
pub proof fn stated_license_reads_back(r: ResolutionView, p: PackageView, chosen: Seq<Seq<char>>) -> (cut: (
    Seq<char>,
    Seq<char>,
    Seq<char>,
))
    requires
        at(r.chosen_of, p.id) == Some(chosen),
        chosen.len() > 0,
        forall|i: int| 0 <= i < chosen.len() ==> free_of(#[trigger] chosen[i], " AND "@),
    ensures
        package_entry(r, p) == cut.0 + "\nLicense: "@ + cut.1 + cut.2,
        cut.1 == joined(chosen, " AND "@),
        forall|d: Seq<Seq<char>>|
            d.len() > 0 && (forall|i: int| 0 <= i < d.len() ==> free_of(#[trigger] d[i], " AND "@)) && #[trigger] joined(
                d,
                " AND "@,
            ) == cut.1 ==> d == chosen,
        forall|i: int| 0 <= i < chosen.len() ==> contains(cut.1, #[trigger] chosen[i]),
        chosen.len() == 1 ==> cut.1 == chosen[0],
        chosen.len() == 2 ==> cut.1 == chosen[0] + " AND "@ + chosen[1],
{
    reveal_strlit(" AND ");
    let parts = entry_has_its_parts(r, p, chosen);
    let head = under_rules('-', "- "@ + p.name + " "@ + p.version) + "Source:  "@ + source_url(p);
    let stated = joined(chosen, " AND "@);
    let tail = parts.0 + parts.1 + parts.2 + parts.3;
    assert(package_entry(r, p) =~= head + "\nLicense: "@ + stated + tail);
    assert forall|d: Seq<Seq<char>>|
        d.len() > 0 && (forall|i: int| 0 <= i < d.len() ==> free_of(#[trigger] d[i], " AND "@)) && #[trigger] joined(
            d,
            " AND "@,
        ) == stated implies d == chosen by {
        joined_reads_back(d, chosen, " AND "@);
    }
    assert forall|i: int| 0 <= i < chosen.len() implies contains(stated, #[trigger] chosen[i]) by {
        joined_holds_each(chosen, " AND "@, i);
    }
    if chosen.len() == 2 {
        assert(chosen.drop_last() =~= seq![chosen[0]]);
        assert(joined(seq![chosen[0]], " AND "@) == chosen[0]);
    }
    (head, stated, tail)
}

/// Two licenses a and b that were chosen for a package are stated as `License: a AND b`.
pub proof fn two_licenses_are_stated_as_both(r: ResolutionView, p: PackageView, a: Seq<char>, b: Seq<char>)
    requires
        at(r.chosen_of, p.id) == Some(seq![a, b]),
    ensures
        contains(package_entry(r, p), "License: "@ + a + " AND "@ + b),
{
    let chosen = seq![a, b];
    let parts = entry_has_its_parts(r, p, chosen);
    assert(chosen.drop_last() =~= seq![a]);
    assert(joined(seq![a], " AND "@) == a);
    let stated = a + " AND "@ + b;
    reveal_strlit("\nLicense: ");
    reveal_strlit("License: ");
    reveal_strlit("\n");
    let head = under_rules('-', "- "@ + p.name + " "@ + p.version) + "Source:  "@ + source_url(p) + "\n"@;
    let tail = parts.0 + parts.1 + parts.2 + parts.3;
    between(head, "License: "@ + a + " AND "@ + b, tail);
    assert(package_entry(r, p) =~= head + ("License: "@ + a + " AND "@ + b) + tail);
}

/// The entry of a package holds every statement that was harvested for it, in full, and
/// every author where none was.
pub proof fn entry_holds_each_holder(r: ResolutionView, p: PackageView, x: ExtrasView, i: int)
    requires
        at(r.extras, p.id) == Some(x),
    ensures
        0 <= i < x.copyrights.len() ==> contains(package_entry(r, p), "  "@ + x.copyrights[i] + "\n"@),
        x.copyrights.len() == 0 && 0 <= i < x.authors.len() ==> contains(
            package_entry(r, p),
            "  "@ + x.authors[i] + "\n"@,
        ),
{
    let chosen = match at(r.chosen_of, p.id) {
        Some(c) => c,
        None => Seq::empty(),
    };
    let parts = entry_has_its_parts(r, p, chosen);
    let hs = if x.copyrights.len() > 0 {
        x.copyrights
    } else {
        x.authors
    };
    let head = under_rules('-', "- "@ + p.name + " "@ + p.version) + "Source:  "@ + source_url(p) + "\nLicense: "@
        + joined(chosen, " AND "@) + parts.0;
    if 0 <= i < hs.len() {
        let lines = Seq::new(hs.len(), |i: int| "  "@ + hs[i] + "\n"@);
        joined_holds_each(lines, Seq::empty(), i);
        let all = joined(lines, Seq::empty());
        assert(parts.1 == "\nCopyright notice:\n"@ + all);
        front_part(all, lines[i], "\nCopyright notice:\n"@);
        front_part(parts.1, lines[i], head);
        front_part(head + parts.1, lines[i], parts.2);
        front_part(head + parts.1 + parts.2, lines[i], parts.3);
    }
}

// ---------------------------------------------------------------- the entry of an extra

/// The entry of an extra has its name between rules, its source where it is known, its
/// license, then its copyright, where the license texts stand, and its notes, as far as
/// there are any.
pub proof fn extra_entry_has_its_parts(x: ExtraView, chosen: Seq<Seq<char>>)
    ensures
        extra_entry(x, chosen) == under_rules('-', x.name) + (match x.url {
            Some(u) => "Source:  "@ + u + "\n"@,
            None => Seq::empty(),
        }) + ("License: "@ + joined(chosen, " AND "@) + (if x.expression.len() > 0 && x.expression != joined(
            chosen,
            " AND "@,
        ) {
            "  (upstream declares: "@ + x.expression + ")\n"@
        } else {
            "\n"@
        })) + (match x.copyright {
            Some(c) => "\nCopyright notice:\n"@ + joined(
                Seq::new(lines_of(c).len(), |i: int| set_in(lines_of(c)[i])),
                Seq::empty(),
            ),
            None => Seq::empty(),
        }) + (if chosen.len() > 0 {
            "\nLicense text: see Part II -- "@ + joined(chosen, ", "@) + "\n"@
        } else {
            Seq::empty()
        }) + (match x.notes {
            Some(c) => "\nAdditional requirements / notices:\n"@ + joined(
                Seq::new(lines_of(c).len(), |i: int| set_in(lines_of(c)[i])),
                Seq::empty(),
            ),
            None => Seq::empty(),
        }),
{
    upstream_is_named_where_it_differs(joined(chosen, " AND "@), x.expression);
    assert(rule('-') =~= Seq::new(80, |i: int| '-'));
    if let Some(c) = x.copyright {
        each_line_is_set_in(lines_of(c));
    }
    if let Some(c) = x.notes {
        each_line_is_set_in(lines_of(c));
    }
}

// ---------------------------------------------------------------- the text of a license

/// A license text stands in full under its id, which tells an exception from a license; it
/// ends with a line feed.
pub proof fn text_stands_in_full(id: Seq<char>, text: Seq<char>, exception: bool)
    ensures
        text_entry(id, text, exception) == under_rules(
            '#',
            "# "@ + id + if exception {
                " (license exception)"@
            } else {
                Seq::empty()
            },
        ) + "\n"@ + ended(text),
        ended(text) == text || ended(text) == text + "\n"@,
        ended(text).len() > 0 && ended(text).last() == '\n',
        text.len() > 0 && text.last() == '\n' ==> ended(text) == text,
{
    reveal_strlit("\n");
    assert(rule('#') =~= Seq::new(80, |i: int| '#'));
}

// ---------------------------------------------------------------- the document

proof fn entries_are_joined(r: ResolutionView, ps: Seq<PackageView>)
    ensures
        package_entries(r, ps) == joined(Seq::new(ps.len(), |i: int| package_entry(r, ps[i])), Seq::empty()),
    decreases ps.len(),
{
    let all = Seq::new(ps.len(), |i: int| package_entry(r, ps[i]));
    if ps.len() > 0 {
        let rest = ps.drop_last();
        entries_are_joined(r, rest);
        let less = Seq::new(rest.len(), |i: int| package_entry(r, rest[i]));
        assert(all.drop_last() =~= less);
        if ps.len() == 1 {
            assert(joined(less, Seq::empty()) =~= Seq::<char>::empty());
            assert(package_entries(r, ps) =~= all[0]);
        } else {
            assert(joined(all, Seq::empty()) =~= joined(less, Seq::empty()) + all.last());
        }
    }
}

proof fn extra_entries_are_joined(xs: Seq<(ExtraView, Seq<Seq<char>>)>)
    ensures
        extra_entries(xs) == joined(Seq::new(xs.len(), |i: int| extra_entry(xs[i].0, xs[i].1)), Seq::empty()),
    decreases xs.len(),
{
    let all = Seq::new(xs.len(), |i: int| extra_entry(xs[i].0, xs[i].1));
    if xs.len() > 0 {
        let rest = xs.drop_last();
        extra_entries_are_joined(rest);
        let less = Seq::new(rest.len(), |i: int| extra_entry(rest[i].0, rest[i].1));
        assert(all.drop_last() =~= less);
        if xs.len() == 1 {
            assert(joined(less, Seq::empty()) =~= Seq::<char>::empty());
            assert(extra_entries(xs) =~= all[0]);
        } else {
            assert(joined(all, Seq::empty()) =~= joined(less, Seq::empty()) + all.last());
        }
    }
}

proof fn texts_are_joined(ts: Seq<(Seq<char>, Seq<char>)>, exceptions: Seq<Seq<char>>)
    ensures
        text_entries(ts, exceptions) == joined(
            Seq::new(ts.len(), |i: int| text_entry(ts[i].0, ts[i].1, exceptions.contains(ts[i].0))),
            Seq::empty(),
        ),
    decreases ts.len(),
{
    let all = Seq::new(ts.len(), |i: int| text_entry(ts[i].0, ts[i].1, exceptions.contains(ts[i].0)));
    if ts.len() > 0 {
        let rest = ts.drop_last();
        texts_are_joined(rest, exceptions);
        let less = Seq::new(rest.len(), |i: int| text_entry(rest[i].0, rest[i].1, exceptions.contains(rest[i].0)));
        assert(all.drop_last() =~= less);
        if ts.len() == 1 {
            assert(joined(less, Seq::empty()) =~= Seq::<char>::empty());
            assert(text_entries(ts, exceptions) =~= all[0]);
        } else {
            assert(joined(all, Seq::empty()) =~= joined(less, Seq::empty()) + all.last());
        }
    }
}

/// The document has the entries of all attributed packages, by name and version, then those
/// of the extra entries, if there are any, in order, then every license text once, each
/// marked as an exception exactly when it is one in use.
pub proof fn notices_have_two_parts(r: ResolutionView, texts: Seq<(Seq<char>, Seq<char>)>)
    ensures
        ({
            let ps = arranged(packages_of(r.packages, r.deps));
            let xs = r.extra_chosen;
            notices_of(r, texts)
                == "THIRD-PARTY NOTICES\n\nThird-party licenses. Generated by cargo tribute; do not edit.\n"@
                + under_rules('=', "PART I -- PER-PACKAGE ENTRIES"@) + joined(
                Seq::new(ps.len(), |i: int| package_entry(r, ps[i])),
                Seq::empty(),
            ) + (if xs.len() > 0 {
                under_rules('=', "PART I (continued) -- NON-CRATE CODE"@) + joined(
                    Seq::new(xs.len(), |i: int| extra_entry(xs[i].0, xs[i].1)),
                    Seq::empty(),
                )
            } else {
                Seq::empty()
            }) + under_rules('=', "PART II -- LICENSE TEXTS"@)
                + "\nOriginal license texts referenced by Part I; one copy per license.\n"@ + joined(
                Seq::new(
                    texts.len(),
                    |i: int| text_entry(texts[i].0, texts[i].1, r.used_exceptions.contains(texts[i].0)),
                ),
                Seq::empty(),
            )
        }),
{
    let ps = arranged(packages_of(r.packages, r.deps));
    entries_are_joined(r, ps);
    extra_entries_are_joined(r.extra_chosen);
    texts_are_joined(texts, r.used_exceptions);
    assert(rule('=') =~= Seq::new(80, |i: int| '='));
}

/// Every license text that the document is given stands in it in full, from the first
/// character to the last.
pub proof fn notices_hold_each_text(r: ResolutionView, texts: Seq<(Seq<char>, Seq<char>)>, i: int)
    requires
        0 <= i < texts.len(),
    ensures
        contains(notices_of(r, texts), texts[i].1),
        contains(
            notices_of(r, texts),
            text_entry(texts[i].0, texts[i].1, r.used_exceptions.contains(texts[i].0)),
        ),
{
    notices_have_two_parts(r, texts);
    let entries = Seq::new(
        texts.len(),
        |i: int| text_entry(texts[i].0, texts[i].1, r.used_exceptions.contains(texts[i].0)),
    );
    let all = joined(entries, Seq::empty());
    let d = notices_of(r, texts);
    joined_holds_each(entries, Seq::empty(), i);
    let front = fronted(r);
    assert(d == front + all);
    front_part(all, entries[i], front);
    text_entry_holds_text(texts[i].0, texts[i].1, r.used_exceptions.contains(texts[i].0));
    part_of_part(d, entries[i], texts[i].1);
}

proof fn text_entry_holds_text(id: Seq<char>, text: Seq<char>, exception: bool)
    ensures
        contains(text_entry(id, text, exception), text),
{
    text_stands_in_full(id, text, exception);
    let tag: Seq<char> = if exception {
        " (license exception)"@
    } else {
        Seq::empty()
    };
    let none = Seq::<char>::empty();
    between(none, text, none);
    assert(none + text + none =~= text);
    front_part(text, text, "\n"@);
    front_part(ended(text), text, under_rules('#', "# "@ + id + tag) + "\n"@);
}

/// All of the document before the license texts.
spec fn fronted(r: ResolutionView) -> Seq<char> {
    let ps = arranged(packages_of(r.packages, r.deps));
    let xs = r.extra_chosen;
    "THIRD-PARTY NOTICES\n\nThird-party licenses. Generated by cargo tribute; do not edit.\n"@ + under_rules(
        '=',
        "PART I -- PER-PACKAGE ENTRIES"@,
    ) + joined(Seq::new(ps.len(), |i: int| package_entry(r, ps[i])), Seq::empty()) + (if xs.len() > 0 {
        under_rules('=', "PART I (continued) -- NON-CRATE CODE"@) + joined(
            Seq::new(xs.len(), |i: int| extra_entry(xs[i].0, xs[i].1)),
            Seq::empty(),
        )
    } else {
        Seq::empty()
    }) + under_rules('=', "PART II -- LICENSE TEXTS"@)
        + "\nOriginal license texts referenced by Part I; one copy per license.\n"@
}

/// Every attributed package has its entry in the document.
pub proof fn notices_hold_each_entry(r: ResolutionView, texts: Seq<(Seq<char>, Seq<char>)>, p: PackageView)
    requires
        packages_of(r.packages, r.deps).contains(p),
    ensures
        contains(notices_of(r, texts), package_entry(r, p)),
{
    notices_have_two_parts(r, texts);
    let ps = arranged(packages_of(r.packages, r.deps));
    arranged_holds_the_same(packages_of(r.packages, r.deps), p);
    let i = choose|i: int| 0 <= i < ps.len() && ps[i] == p;
    let entries = Seq::new(ps.len(), |i: int| package_entry(r, ps[i]));
    joined_holds_each(entries, Seq::empty(), i);
    let all = joined(entries, Seq::empty());
    let d = notices_of(r, texts);
    let head = "THIRD-PARTY NOTICES\n\nThird-party licenses. Generated by cargo tribute; do not edit.\n"@ + under_rules(
        '=',
        "PART I -- PER-PACKAGE ENTRIES"@,
    );
    let tail = d.skip((head.len() + all.len()) as int);
    between(head, all, tail);
    assert(head + all + tail =~= d);
    part_of_part(d, all, entries[i]);
}

/// Every extra entry has its entry in the document.
pub proof fn notices_hold_each_extra(r: ResolutionView, texts: Seq<(Seq<char>, Seq<char>)>, i: int)
    requires
        0 <= i < r.extra_chosen.len(),
    ensures
        contains(notices_of(r, texts), extra_entry(r.extra_chosen[i].0, r.extra_chosen[i].1)),
{
    notices_have_two_parts(r, texts);
    let xs = r.extra_chosen;
    let ps = arranged(packages_of(r.packages, r.deps));
    let entries = Seq::new(xs.len(), |i: int| extra_entry(xs[i].0, xs[i].1));
    joined_holds_each(entries, Seq::empty(), i);
    let all = joined(entries, Seq::empty());
    let d = notices_of(r, texts);
    let head = "THIRD-PARTY NOTICES\n\nThird-party licenses. Generated by cargo tribute; do not edit.\n"@ + under_rules(
        '=',
        "PART I -- PER-PACKAGE ENTRIES"@,
    ) + joined(Seq::new(ps.len(), |i: int| package_entry(r, ps[i])), Seq::empty()) + under_rules(
        '=',
        "PART I (continued) -- NON-CRATE CODE"@,
    );
    let tail = d.skip((head.len() + all.len()) as int);
    between(head, all, tail);
    assert(head + all + tail =~= d);
    part_of_part(d, all, entries[i]);
}

} // verus!
