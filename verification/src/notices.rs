//! The all-in-one notices document, in plain text.

use vstd::prelude::*;
use vstd::string::*;
use crate::config::{Extra, ExtraView};
use crate::graph::{Package, PackageView};
use crate::harvest::ExtrasView;
use crate::manifest::or_none;
use crate::resolution::{arrange, arranged, packages_of, select_packages, source_url, url_of, Resolution, ResolutionView};
use crate::scan::{join, joined, lines, lines_of};
use crate::sets::{at, has, Table};
use crate::text::{cat2, cat3, cat5, chars_of, owned, same};

verus! {

/// A character repeated over the width of the document.
pub open spec fn rule(c: char) -> Seq<char> {
    Seq::new(80, |i: int| c)
}

/// A character repeated over the width of the document.
fn ruled(c: char) -> (r: String)
    ensures
        r@ == rule(c),
{
    let mut s = String::new();
    let mut i: usize = 0;
    while i < 80
        invariant
            i <= 80,
            s@ == rule(c).take(i as int),
        decreases 80 - i,
    {
        s.push(c);
        assert(rule(c).take(i + 1) =~= rule(c).take(i as int).push(c));
        i += 1;
    }
    assert(rule(c).take(80) =~= rule(c));
    s
}

/// A title between two rules.
pub open spec fn boxed(c: char, title: Seq<char>) -> Seq<char> {
    "\n"@ + rule(c) + "\n"@ + title + "\n"@ + rule(c) + "\n"@
}

/// A title between two rules.
fn titled(c: char, title: &str) -> (r: String)
    ensures
        r@ == boxed(c, title@),
{
    let line = ruled(c);
    let mut s = cat3("\n", line.as_str(), "\n");
    s.append(title);
    s.append("\n");
    s.append(line.as_str());
    s.append("\n");
    s
}

/// The license of an entry; what upstream declares is named beside it only where that is
/// given and differs.
pub open spec fn license_line(chosen: Seq<char>, upstream: Seq<char>) -> Seq<char> {
    if upstream != chosen && upstream.len() > 0 {
        "License: "@ + chosen + "  (upstream declares: "@ + upstream + ")\n"@
    } else {
        "License: "@ + chosen + "\n"@
    }
}

/// Appends the license of an entry.
pub fn push_license_line(out: &mut String, chosen: &str, upstream: &str)
    ensures
        final(out)@ == old(out)@ + license_line(chosen@, upstream@),
{
    let line = if !same(upstream, chosen) && !upstream.is_empty() {
        cat5("License: ", chosen, "  (upstream declares: ", upstream, ")\n")
    } else {
        cat3("License: ", chosen, "\n")
    };
    out.append(line.as_str());
}

/// Where the license texts of an entry stand, if it has any.
pub open spec fn text_pointer(chosen: Option<Seq<Seq<char>>>) -> Seq<char> {
    match chosen {
        Some(c) => if c.len() > 0 {
            "\nLicense text: see Part II -- "@ + joined(c, ", "@) + "\n"@
        } else {
            Seq::empty()
        },
        None => Seq::empty(),
    }
}

/// Appends where the license texts of an entry stand.
pub fn push_text_pointer(out: &mut String, chosen: Option<&Vec<String>>)
    ensures
        final(out)@ == old(out)@ + text_pointer(chosen.deep_view()),
{
    let line = match chosen {
        Some(c) => if c.len() > 0 {
            let ids = join(c, ", ");
            cat3("\nLicense text: see Part II -- ", ids.as_str(), "\n")
        } else {
            String::new()
        },
        None => String::new(),
    };
    out.append(line.as_str());
}

/// Lines indented by two blanks, but for empty ones.
pub open spec fn indented(ls: Seq<Seq<char>>) -> Seq<char>
    decreases ls.len(),
{
    if ls.len() == 0 {
        Seq::empty()
    } else if ls.last().len() == 0 {
        indented(ls.drop_last()) + "\n"@
    } else {
        indented(ls.drop_last()) + "  "@ + ls.last() + "\n"@
    }
}

/// Appends a text with every line indented by two blanks.
pub fn push_indented(out: &mut String, text: &str)
    ensures
        final(out)@ == old(out)@ + indented(lines_of(text@)),
{
    let ls = lines(text);
    let ghost all = ls.deep_view();
    let mut body = String::new();
    let mut i: usize = 0;
    while i < ls.len()
        invariant
            all == ls.deep_view(),
            i <= ls@.len(),
            body@ == indented(all.take(i as int)),
        decreases ls.len() - i,
    {
        let ghost upto = all.take(i + 1);
        assert(upto.drop_last() =~= all.take(i as int));
        assert(upto.last() == ls@[i as int]@);
        if ls[i].as_str().is_empty() {
            body.append("\n");
        } else {
            body.append("  ");
            body.append(ls[i].as_str());
            body.append("\n");
        }
        i += 1;
    }
    assert(all.take(i as int) =~= all);
    out.append(body.as_str());
}

// ---------------------------------------------------------------- packages

/// Each text on an indented line of its own.
pub open spec fn listed_lines(ls: Seq<Seq<char>>) -> Seq<char>
    decreases ls.len(),
{
    if ls.len() == 0 {
        Seq::empty()
    } else {
        listed_lines(ls.drop_last()) + "  "@ + ls.last() + "\n"@
    }
}

/// The holders of a package: its copyright statements, or else its declared authors.
pub open spec fn holders(x: Option<ExtrasView>) -> Seq<Seq<char>> {
    match x {
        Some(x) => if x.copyrights.len() == 0 {
            x.authors
        } else {
            x.copyrights
        },
        None => Seq::empty(),
    }
}

/// The copyright notice, if anybody is named.
pub open spec fn holders_part(hs: Seq<Seq<char>>) -> Seq<char> {
    if hs.len() > 0 {
        "\nCopyright notice:\n"@ + listed_lines(hs)
    } else {
        Seq::empty()
    }
}

/// The name and version of a package.
pub open spec fn label_of(p: PackageView) -> Seq<char> {
    p.name + " "@ + p.version
}

/// The NOTICE of a package, if it ships one.
pub open spec fn notice_part(p: PackageView, x: Option<ExtrasView>) -> Seq<char> {
    match x {
        Some(x) => match x.notice {
            Some(n) => "\nNOTICE for "@ + label_of(p) + " (reproduced as shipped):\n"@ + indented(
                lines_of(n),
            ),
            None => Seq::empty(),
        },
        None => Seq::empty(),
    }
}

/// A text, empty if there is none.
pub open spec fn or_blank(o: Option<Seq<char>>) -> Seq<char> {
    match o {
        Some(s) => s,
        None => Seq::empty(),
    }
}

/// The entry of a package.
pub open spec fn package_entry(r: ResolutionView, p: PackageView) -> Seq<char> {
    boxed('-', "- "@ + label_of(p)) + "Source:  "@ + source_url(p) + "\n"@ + license_line(
        joined(or_none(at(r.chosen_of, p.id)), " AND "@),
        or_blank(at(r.effective, p.id)),
    ) + holders_part(holders(at(r.extras, p.id))) + text_pointer(at(r.chosen_of, p.id))
        + notice_part(p, at(r.extras, p.id))
}

/// The entries of packages.
pub open spec fn package_entries(r: ResolutionView, ps: Seq<PackageView>) -> Seq<char>
    decreases ps.len(),
{
    if ps.len() == 0 {
        Seq::empty()
    } else {
        package_entries(r, ps.drop_last()) + package_entry(r, ps.last())
    }
}

fn render_holders(hs: &Vec<String>) -> (r: String)
    ensures
        r@ == holders_part(hs.deep_view()),
{
    if hs.len() == 0 {
        return String::new();
    }
    let ghost all = hs.deep_view();
    let mut body = String::new();
    let mut i: usize = 0;
    while i < hs.len()
        invariant
            all == hs.deep_view(),
            i <= hs@.len(),
            body@ == listed_lines(all.take(i as int)),
        decreases hs.len() - i,
    {
        let ghost upto = all.take(i + 1);
        assert(upto.drop_last() =~= all.take(i as int));
        assert(upto.last() == hs@[i as int]@);
        body.append("  ");
        body.append(hs[i].as_str());
        body.append("\n");
        i += 1;
    }
    assert(all.take(i as int) =~= all);
    cat2("\nCopyright notice:\n", body.as_str())
}

fn render_entry(r: &Resolution, p: &Package) -> (res: String)
    ensures
        res@ == package_entry(r.deep_view(), p.deep_view()),
{
    let label = cat3(p.name.as_str(), " ", p.version.as_str());
    let title = cat2("- ", label.as_str());
    let mut out = titled('-', title.as_str());
    out.append("Source:  ");
    let url = url_of(p);
    out.append(url.as_str());
    out.append("\n");
    let chosen = r.chosen_of.get(p.id.as_str());
    let lic = match chosen {
        Some(c) => join(c, " AND "),
        None => String::new(),
    };
    let upstream = match r.effective.get(p.id.as_str()) {
        Some(e) => owned(e.as_str()),
        None => String::new(),
    };
    push_license_line(&mut out, lic.as_str(), upstream.as_str());
    let x = r.extras.get(p.id.as_str());
    let who = match x {
        Some(x) => if x.copyrights.len() == 0 {
            render_holders(&x.authors)
        } else {
            render_holders(&x.copyrights)
        },
        None => String::new(),
    };
    out.append(who.as_str());
    push_text_pointer(&mut out, chosen);
    let notice = match x {
        Some(x) => match &x.notice {
            Some(n) => {
                let mut t = cat3("\nNOTICE for ", label.as_str(), " (reproduced as shipped):\n");
                push_indented(&mut t, n.as_str());
                t
            },
            None => String::new(),
        },
        None => String::new(),
    };
    out.append(notice.as_str());
    out
}

fn render_entries(r: &Resolution, ps: &Vec<&Package>) -> (res: String)
    ensures
        res@ == package_entries(r.deep_view(), ps.deep_view()),
{
    let ghost all = ps.deep_view();
    let ghost rv = r.deep_view();
    let mut out = String::new();
    let mut i: usize = 0;
    while i < ps.len()
        invariant
            all == ps.deep_view(),
            rv == r.deep_view(),
            i <= ps@.len(),
            out@ == package_entries(rv, all.take(i as int)),
        decreases ps.len() - i,
    {
        let ghost upto = all.take(i + 1);
        assert(upto.drop_last() =~= all.take(i as int));
        assert(upto.last() == ps@[i as int].deep_view());
        let entry = render_entry(r, ps[i]);
        out.append(entry.as_str());
        i += 1;
    }
    assert(all.take(i as int) =~= all);
    out
}

// ---------------------------------------------------------------- extra entries

/// Where an extra entry comes from, if it says so.
pub open spec fn extra_source(x: ExtraView) -> Seq<char> {
    match x.url {
        Some(u) => "Source:  "@ + u + "\n"@,
        None => Seq::empty(),
    }
}

/// An optional text under a heading.
pub open spec fn headed(heading: Seq<char>, text: Option<Seq<char>>) -> Seq<char> {
    match text {
        Some(t) => heading + indented(lines_of(t)),
        None => Seq::empty(),
    }
}

/// The entry of code that is no crate.
pub open spec fn extra_entry(x: ExtraView, chosen: Seq<Seq<char>>) -> Seq<char> {
    boxed('-', x.name) + extra_source(x) + license_line(joined(chosen, " AND "@), x.expression)
        + headed("\nCopyright notice:\n"@, x.copyright) + text_pointer(Some(chosen)) + headed(
        "\nAdditional requirements / notices:\n"@,
        x.notes,
    )
}

/// The entries of code that is no crate.
pub open spec fn extra_entries(xs: Seq<(ExtraView, Seq<Seq<char>>)>) -> Seq<char>
    decreases xs.len(),
{
    if xs.len() == 0 {
        Seq::empty()
    } else {
        extra_entries(xs.drop_last()) + extra_entry(xs.last().0, xs.last().1)
    }
}

/// The part on code that is no crate, if there is any.
pub open spec fn extra_part(xs: Seq<(ExtraView, Seq<Seq<char>>)>) -> Seq<char> {
    if xs.len() > 0 {
        boxed('=', "PART I (continued) -- NON-CRATE CODE"@) + extra_entries(xs)
    } else {
        Seq::empty()
    }
}

fn render_headed(heading: &str, text: &Option<String>) -> (r: String)
    ensures
        r@ == headed(heading@, text.deep_view()),
{
    match text {
        Some(t) => {
            let mut out = owned(heading);
            push_indented(&mut out, t.as_str());
            out
        },
        None => String::new(),
    }
}

fn render_extra_entry(x: &Extra, chosen: &Vec<String>) -> (r: String)
    ensures
        r@ == extra_entry(x.deep_view(), chosen.deep_view()),
{
    let mut out = titled('-', x.name.as_str());
    let source = match &x.url {
        Some(u) => cat3("Source:  ", u.as_str(), "\n"),
        None => String::new(),
    };
    out.append(source.as_str());
    let lic = join(chosen, " AND ");
    push_license_line(&mut out, lic.as_str(), x.expression.as_str());
    let copyright = render_headed("\nCopyright notice:\n", &x.copyright);
    out.append(copyright.as_str());
    push_text_pointer(&mut out, Some(chosen));
    let notes = render_headed("\nAdditional requirements / notices:\n", &x.notes);
    out.append(notes.as_str());
    out
}

fn render_extra_part(xs: &Vec<(&Extra, Vec<String>)>) -> (r: String)
    ensures
        r@ == extra_part(xs.deep_view()),
{
    if xs.len() == 0 {
        return String::new();
    }
    let ghost all = xs.deep_view();
    let mut body = String::new();
    let mut i: usize = 0;
    while i < xs.len()
        invariant
            all == xs.deep_view(),
            i <= xs@.len(),
            body@ == extra_entries(all.take(i as int)),
        decreases xs.len() - i,
    {
        let ghost upto = all.take(i + 1);
        assert(upto.drop_last() =~= all.take(i as int));
        assert(upto.last() == xs@[i as int].deep_view());
        let entry = render_extra_entry(xs[i].0, &xs[i].1);
        body.append(entry.as_str());
        i += 1;
    }
    assert(all.take(i as int) =~= all);
    let mut out = titled('=', "PART I (continued) -- NON-CRATE CODE");
    out.append(body.as_str());
    out
}

// ---------------------------------------------------------------- texts

/// What marks the text of an exception.
pub open spec fn exception_tag(exception: bool) -> Seq<char> {
    if exception {
        " (license exception)"@
    } else {
        Seq::empty()
    }
}

/// The text with a line feed at its end.
pub open spec fn ended(text: Seq<char>) -> Seq<char> {
    if text.len() > 0 && text.last() == '\n' {
        text
    } else {
        text + "\n"@
    }
}

/// A license text under its id.
pub open spec fn text_entry(id: Seq<char>, text: Seq<char>, exception: bool) -> Seq<char> {
    boxed('#', "# "@ + id + exception_tag(exception)) + "\n"@ + ended(text)
}

/// License texts, each under its id.
pub open spec fn text_entries(
    texts: Seq<(Seq<char>, Seq<char>)>,
    exceptions: Seq<Seq<char>>,
) -> Seq<char>
    decreases texts.len(),
{
    if texts.len() == 0 {
        Seq::empty()
    } else {
        text_entries(texts.drop_last(), exceptions) + text_entry(
            texts.last().0,
            texts.last().1,
            exceptions.contains(texts.last().0),
        )
    }
}

fn render_text_entry(id: &str, text: &str, exception: bool) -> (r: String)
    ensures
        r@ == text_entry(id@, text@, exception),
{
    let tag = if exception {
        owned(" (license exception)")
    } else {
        String::new()
    };
    let title = cat3("# ", id, tag.as_str());
    let mut out = titled('#', title.as_str());
    out.append("\n");
    let v = chars_of(text);
    let body = if v.len() > 0 && v[v.len() - 1] == '\n' {
        owned(text)
    } else {
        cat2(text, "\n")
    };
    out.append(body.as_str());
    out
}

fn render_texts(texts: &Table<String>, exceptions: &Vec<String>) -> (r: String)
    ensures
        r@ == text_entries(texts.deep_view(), exceptions.deep_view()),
{
    let ghost all = texts.deep_view();
    let ghost used = exceptions.deep_view();
    let mut out = String::new();
    let mut i: usize = 0;
    while i < texts.rows.len()
        invariant
            all == texts.deep_view(),
            used == exceptions.deep_view(),
            i <= texts.rows@.len(),
            out@ == text_entries(all.take(i as int), used),
        decreases texts.rows.len() - i,
    {
        let row = &texts.rows[i];
        let ghost upto = all.take(i + 1);
        assert(upto.drop_last() =~= all.take(i as int));
        assert(upto.last() == row.deep_view());
        let entry = render_text_entry(
            row.0.as_str(),
            row.1.as_str(),
            has(exceptions, row.0.as_str()),
        );
        out.append(entry.as_str());
        i += 1;
    }
    assert(all.take(i as int) =~= all);
    out
}

// ---------------------------------------------------------------- the document

/// The notices document: an entry per package by name and version, the entries of code
/// that is no crate, and every license text once.
pub open spec fn notices_of(r: ResolutionView, texts: Seq<(Seq<char>, Seq<char>)>) -> Seq<char> {
    "THIRD-PARTY NOTICES\n\nThird-party licenses. Generated by cargo tribute; do not edit.\n"@ + boxed(
        '=',
        "PART I -- PER-PACKAGE ENTRIES"@,
    ) + package_entries(r, arranged(packages_of(r.packages, r.deps))) + extra_part(r.extra_chosen)
        + boxed('=', "PART II -- LICENSE TEXTS"@)
        + "\nOriginal license texts referenced by Part I; one copy per license.\n"@ + text_entries(
        texts,
        r.used_exceptions,
    )
}

/// One flat document: a self-contained entry per package (source, chosen license beside
/// the upstream expression, copyright, NOTICE body), then every referenced license text
/// once.
pub fn render_text(r: &Resolution, texts: &Table<String>) -> (res: String)
    ensures
        res@ == notices_of(r.deep_view(), texts.deep_view()),
{
    let mut out = owned(
        "THIRD-PARTY NOTICES\n\nThird-party licenses. Generated by cargo tribute; do not edit.\n",
    );
    let title = titled('=', "PART I -- PER-PACKAGE ENTRIES");
    out.append(title.as_str());
    let selected = select_packages(r.packages, r.deps);
    let ps = arrange(&selected);
    let entries = render_entries(r, &ps);
    out.append(entries.as_str());
    let more = render_extra_part(r.extra_chosen);
    out.append(more.as_str());
    let title = titled('=', "PART II -- LICENSE TEXTS");
    out.append(title.as_str());
    out.append("\nOriginal license texts referenced by Part I; one copy per license.\n");
    let body = render_texts(texts, r.used_exceptions);
    out.append(body.as_str());
    out
}

} // verus!
