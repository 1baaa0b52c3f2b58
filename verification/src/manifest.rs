//! The attribution manifest: packages grouped by license, in Markdown.

use vstd::prelude::*;
use vstd::string::*;
use crate::config::{Extra, ExtraView};
use crate::graph::{Package, PackageView};
use crate::harvest::{Extras, ExtrasView};
use crate::resolution::{all_ids, arrange, arranged, arranged_holds_the_same, author_list, dedup, deduped, deduped_keeps_an_id, license_ids, shown_authors, source_url, url_of, Resolution, ResolutionView};
use crate::scan::{behind_is_contained, contained_behind, contained_stays, contains, join, joined, occurs_at};
use crate::sets::{at, at_is_first, in_order_lists, keys_of, Table};
use crate::text::{cat2, cat3, cat5, owned, same};

verus! {

/// Some package ships a NOTICE.
pub open spec fn ships_notice(extras: Seq<(Seq<char>, ExtrasView)>) -> bool {
    exists|i: int| 0 <= i < extras.len() && (#[trigger] extras[i]).1.notice is Some
}

/// The mention of the notices folder, when there is something in it.
pub open spec fn notices_mention(mention: bool, notices_dir: Seq<char>) -> Seq<char> {
    if mention {
        ", NOTICE files shipped by dependencies in [`"@ + notices_dir + "/`]("@ + notices_dir
            + ")"@
    } else {
        Seq::empty()
    }
}

/// How the manifest starts.
pub open spec fn manifest_head(
    licenses_dir: Seq<char>,
    notices_dir: Seq<char>,
    mention: bool,
) -> Seq<char> {
    "# Third-party licenses\n\nDependencies linked into this crate, grouped by license; full texts are in [`"@
        + licenses_dir + "/`]("@ + licenses_dir + ")"@ + notices_mention(mention, notices_dir)
        + ". Generated by `cargo tribute`; do not edit.\n\n"@
}

/// The expression that is used, when it differs from the license of the section, so that
/// exceptions and dual-license picks are not hidden by the grouping.
pub open spec fn expression_note(expr: Option<Seq<char>>, id: Seq<char>) -> Seq<char> {
    match expr {
        Some(e) => if e != id {
            " -- `"@ + e + "`"@
        } else {
            Seq::empty()
        },
        None => Seq::empty(),
    }
}

/// The holders: the copyright statements of the package, or else its authors.
pub open spec fn holders_note(x: ExtrasView) -> Seq<char> {
    if x.copyrights.len() > 0 {
        " -- "@ + joined(x.copyrights, "; "@)
    } else if shown_authors(x.authors).len() > 0 {
        " -- by "@ + joined(shown_authors(x.authors), ", "@)
    } else {
        Seq::empty()
    }
}

/// The link to the NOTICE of a package, when it ships one.
pub open spec fn notice_link(x: ExtrasView, p: PackageView, notices_dir: Seq<char>) -> Seq<char> {
    if x.notice is Some {
        " -- [NOTICE]("@ + notices_dir + "/"@ + p.name + "-"@ + p.version + ".txt)"@
    } else {
        Seq::empty()
    }
}

/// What the files of a package add to its line.
pub open spec fn extras_note(
    x: Option<ExtrasView>,
    p: PackageView,
    notices_dir: Seq<char>,
) -> Seq<char> {
    match x {
        Some(x) => holders_note(x) + notice_link(x, p, notices_dir),
        None => Seq::empty(),
    }
}

/// The line of a package in the section of a license.
pub open spec fn package_line(
    r: ResolutionView,
    id: Seq<char>,
    p: PackageView,
    notices_dir: Seq<char>,
) -> Seq<char> {
    "- ["@ + p.name + " "@ + p.version + "]("@ + source_url(p) + ")"@ + expression_note(
        at(r.effective, p.id),
        id,
    ) + extras_note(at(r.extras, p.id), p, notices_dir) + "\n"@
}

/// The lines of packages in the section of a license.
pub open spec fn package_lines(
    r: ResolutionView,
    id: Seq<char>,
    ps: Seq<PackageView>,
    notices_dir: Seq<char>,
) -> Seq<char>
    decreases ps.len(),
{
    if ps.len() == 0 {
        Seq::empty()
    } else {
        package_lines(r, id, ps.drop_last(), notices_dir) + package_line(
            r,
            id,
            ps.last(),
            notices_dir,
        )
    }
}

/// The name of an extra entry, with a link where it has one.
pub open spec fn extra_name(x: ExtraView) -> Seq<char> {
    match x.url {
        Some(u) => "- ["@ + x.name + "]("@ + u + ")"@,
        None => "- "@ + x.name,
    }
}

/// The copyright of an extra entry, where it gives one.
pub open spec fn copyright_note(c: Option<Seq<char>>) -> Seq<char> {
    match c {
        Some(c) => " -- "@ + c,
        None => Seq::empty(),
    }
}

/// The line of an extra entry in the section of a license.
pub open spec fn extra_line(x: ExtraView, id: Seq<char>) -> Seq<char> {
    extra_name(x) + expression_note(Some(x.expression), id) + copyright_note(x.copyright) + "\n"@
}

/// The lines of extra entries in the section of a license.
pub open spec fn extra_lines(xs: Seq<ExtraView>, id: Seq<char>) -> Seq<char>
    decreases xs.len(),
{
    if xs.len() == 0 {
        Seq::empty()
    } else {
        extra_lines(xs.drop_last(), id) + extra_line(xs.last(), id)
    }
}

/// A list, empty if there is none.
pub open spec fn or_none<T>(o: Option<Seq<T>>) -> Seq<T> {
    match o {
        Some(s) => s,
        None => Seq::empty(),
    }
}

/// The section of a license: where its text is, its packages by name and version, then
/// its extra entries.
pub open spec fn section(
    r: ResolutionView,
    id: Seq<char>,
    licenses_dir: Seq<char>,
    notices_dir: Seq<char>,
) -> Seq<char> {
    "## "@ + id + "\n\nText: [`"@ + licenses_dir + "/"@ + id + ".txt`]("@ + licenses_dir + "/"@ + id
        + ".txt)\n\n"@ + package_lines(
        r,
        id,
        deduped(arranged(or_none(at(r.by_license, id)))),
        notices_dir,
    ) + extra_lines(or_none(at(r.extra_by_license, id)), id) + "\n"@
}

/// The sections of a list of licenses.
pub open spec fn sections(
    r: ResolutionView,
    ids: Seq<Seq<char>>,
    licenses_dir: Seq<char>,
    notices_dir: Seq<char>,
) -> Seq<char>
    decreases ids.len(),
{
    if ids.len() == 0 {
        Seq::empty()
    } else {
        sections(r, ids.drop_last(), licenses_dir, notices_dir) + section(
            r,
            ids.last(),
            licenses_dir,
            notices_dir,
        )
    }
}

/// The manifest: its head, then a section for each license in use.
pub open spec fn manifest_of(
    r: ResolutionView,
    licenses_dir: Seq<char>,
    notices_dir: Seq<char>,
) -> Seq<char> {
    manifest_head(licenses_dir, notices_dir, ships_notice(r.extras)) + sections(
        r,
        license_ids(r.by_license, r.extra_by_license),
        licenses_dir,
        notices_dir,
    )
}

// ---------------------------------------------------------------- rendering

fn any_notice(extras: &Table<Extras>) -> (r: bool)
    ensures
        r == ships_notice(extras.deep_view()),
{
    let ghost all = extras.deep_view();
    let mut i: usize = 0;
    while i < extras.rows.len()
        invariant
            all == extras.deep_view(),
            i <= extras.rows@.len(),
            forall|j: int| 0 <= j < i ==> (#[trigger] all[j]).1.notice is None,
        decreases extras.rows.len() - i,
    {
        assert(all[i as int] == extras.rows@[i as int].deep_view());
        if extras.rows[i].1.notice.is_some() {
            assert(all[i as int].1.notice is Some);
            return true;
        }
        i += 1;
    }
    false
}

fn render_head(licenses_dir: &str, notices_dir: &str, mention: bool) -> (r: String)
    ensures
        r@ == manifest_head(licenses_dir@, notices_dir@, mention),
{
    let mut out = owned(
        "# Third-party licenses\n\nDependencies linked into this crate, grouped by license; full texts are in [`",
    );
    out.append(licenses_dir);
    out.append("/`](");
    out.append(licenses_dir);
    out.append(")");
    let folder = if mention {
        cat5(
            ", NOTICE files shipped by dependencies in [`",
            notices_dir,
            "/`](",
            notices_dir,
            ")",
        )
    } else {
        String::new()
    };
    out.append(folder.as_str());
    out.append(". Generated by `cargo tribute`; do not edit.\n\n");
    out
}

fn render_expression(expr: Option<&String>, id: &str) -> (r: String)
    ensures
        r@ == expression_note(expr.deep_view(), id@),
{
    match expr {
        Some(e) => if !same(e.as_str(), id) {
            cat3(" -- `", e.as_str(), "`")
        } else {
            String::new()
        },
        None => String::new(),
    }
}

fn render_holders(x: &Extras) -> (r: String)
    ensures
        r@ == holders_note(x.deep_view()),
{
    if x.copyrights.len() > 0 {
        let all = join(&x.copyrights, "; ");
        return cat2(" -- ", all.as_str());
    }
    let names = author_list(&x.authors);
    if names.len() > 0 {
        let all = join(&names, ", ");
        cat2(" -- by ", all.as_str())
    } else {
        String::new()
    }
}

fn render_notice_link(x: &Extras, p: &Package, notices_dir: &str) -> (r: String)
    ensures
        r@ == notice_link(x.deep_view(), p.deep_view(), notices_dir@),
{
    if x.notice.is_some() {
        let mut out = cat2(" -- [NOTICE](", notices_dir);
        out.append("/");
        out.append(p.name.as_str());
        out.append("-");
        out.append(p.version.as_str());
        out.append(".txt)");
        out
    } else {
        String::new()
    }
}

fn render_extras(x: Option<&Extras>, p: &Package, notices_dir: &str) -> (r: String)
    ensures
        r@ == extras_note(x.deep_view(), p.deep_view(), notices_dir@),
{
    match x {
        Some(x) => {
            let mut out = render_holders(x);
            let link = render_notice_link(x, p, notices_dir);
            out.append(link.as_str());
            out
        },
        None => String::new(),
    }
}

fn render_package(r: &Resolution, id: &str, p: &Package, notices_dir: &str) -> (res: String)
    ensures
        res@ == package_line(r.deep_view(), id@, p.deep_view(), notices_dir@),
{
    let mut out = cat2("- [", p.name.as_str());
    out.append(" ");
    out.append(p.version.as_str());
    out.append("](");
    let url = url_of(p);
    out.append(url.as_str());
    out.append(")");
    let expr = render_expression(r.effective.get(p.id.as_str()), id);
    out.append(expr.as_str());
    let more = render_extras(r.extras.get(p.id.as_str()), p, notices_dir);
    out.append(more.as_str());
    out.append("\n");
    out
}

fn render_packages(r: &Resolution, id: &str, ps: &Vec<&Package>, notices_dir: &str) -> (res: String)
    ensures
        res@ == package_lines(r.deep_view(), id@, ps.deep_view(), notices_dir@),
{
    let ghost all = ps.deep_view();
    let ghost rv = r.deep_view();
    let mut out = String::new();
    let mut i: usize = 0;
    while i < ps.len()
        invariant
            all == ps.deep_view(),
            rv == r.deep_view(),
            i <= ps@.len(),
            out@ == package_lines(rv, id@, all.take(i as int), notices_dir@),
        decreases ps.len() - i,
    {
        let ghost upto = all.take(i + 1);
        assert(upto.drop_last() =~= all.take(i as int));
        assert(upto.last() == ps@[i as int].deep_view());
        let line = render_package(r, id, ps[i], notices_dir);
        out.append(line.as_str());
        i += 1;
    }
    assert(all.take(i as int) =~= all);
    out
}

fn render_extra(x: &Extra, id: &str) -> (r: String)
    ensures
        r@ == extra_line(x.deep_view(), id@),
{
    let mut out = match &x.url {
        Some(u) => cat5("- [", x.name.as_str(), "](", u.as_str(), ")"),
        None => cat2("- ", x.name.as_str()),
    };
    let expr = render_expression(Some(&x.expression), id);
    out.append(expr.as_str());
    let c = match &x.copyright {
        Some(c) => cat2(" -- ", c.as_str()),
        None => String::new(),
    };
    out.append(c.as_str());
    out.append("\n");
    out
}

fn render_extra_list(xs: &Vec<&Extra>, id: &str) -> (r: String)
    ensures
        r@ == extra_lines(xs.deep_view(), id@),
{
    let ghost all = xs.deep_view();
    let mut out = String::new();
    let mut i: usize = 0;
    while i < xs.len()
        invariant
            all == xs.deep_view(),
            i <= xs@.len(),
            out@ == extra_lines(all.take(i as int), id@),
        decreases xs.len() - i,
    {
        let ghost upto = all.take(i + 1);
        assert(upto.drop_last() =~= all.take(i as int));
        assert(upto.last() == xs@[i as int].deep_view());
        let line = render_extra(xs[i], id);
        out.append(line.as_str());
        i += 1;
    }
    assert(all.take(i as int) =~= all);
    out
}

fn render_section(r: &Resolution, id: &str, licenses_dir: &str, notices_dir: &str) -> (res: String)
    ensures
        res@ == section(r.deep_view(), id@, licenses_dir@, notices_dir@),
{
    let ghost rv = r.deep_view();
    let mut out = cat3("## ", id, "\n\nText: [`");
    out.append(licenses_dir);
    out.append("/");
    out.append(id);
    out.append(".txt`](");
    out.append(licenses_dir);
    out.append("/");
    out.append(id);
    out.append(".txt)\n\n");
    let ps = match r.by_license.get(id) {
        Some(ps) => {
            let sorted = arrange(ps);
            dedup(&sorted)
        },
        None => {
            let none: Vec<&Package> = Vec::new();
            assert(none.deep_view() =~= Seq::<PackageView>::empty());
            assert(deduped(arranged(Seq::<PackageView>::empty())) =~= Seq::<PackageView>::empty());
            none
        },
    };
    let lines = render_packages(r, id, &ps, notices_dir);
    out.append(lines.as_str());
    let more = match r.extra_by_license.get(id) {
        Some(xs) => render_extra_list(xs, id),
        None => String::new(),
    };
    out.append(more.as_str());
    out.append("\n");
    out
}

/// The attribution manifest: a section for each license in use, with a link to its text
/// and a line for each package and extra entry that is attributed under it.
pub fn render_manifest(r: &Resolution, licenses_dir: &str, notices_dir: &str) -> (res: String)
    ensures
        res@ == manifest_of(r.deep_view(), licenses_dir@, notices_dir@),
{
    let ghost rv = r.deep_view();
    let ids = all_ids(r.by_license, r.extra_by_license);
    let ghost all = ids.deep_view();
    let mut body = String::new();
    let mut i: usize = 0;
    while i < ids.len()
        invariant
            all == ids.deep_view(),
            rv == r.deep_view(),
            i <= ids@.len(),
            body@ == sections(rv, all.take(i as int), licenses_dir@, notices_dir@),
        decreases ids.len() - i,
    {
        let ghost upto = all.take(i + 1);
        assert(upto.drop_last() =~= all.take(i as int));
        assert(upto.last() == ids@[i as int]@);
        let part = render_section(r, ids[i].as_str(), licenses_dir, notices_dir);
        body.append(part.as_str());
        i += 1;
    }
    assert(all.take(i as int) =~= all);
    let mut out = render_head(licenses_dir, notices_dir, any_notice(r.extras));
    out.append(body.as_str());
    out
}

// ---------------------------------------------------------------- laws

proof fn line_of_each_package(
    r: ResolutionView,
    id: Seq<char>,
    ps: Seq<PackageView>,
    notices_dir: Seq<char>,
    i: int,
)
    requires
        0 <= i < ps.len(),
    ensures
        contains(package_lines(r, id, ps, notices_dir), package_line(r, id, ps[i], notices_dir)),
    decreases ps.len(),
{
    let rest = ps.drop_last();
    let line = package_line(r, id, ps.last(), notices_dir);
    if i == ps.len() - 1 {
        behind_is_contained(package_lines(r, id, rest, notices_dir), line);
    } else {
        assert(rest[i] == ps[i]);
        line_of_each_package(r, id, rest, notices_dir, i);
        contained_stays(
            package_lines(r, id, rest, notices_dir),
            line,
            package_line(r, id, ps[i], notices_dir),
        );
    }
}

proof fn line_of_each_extra(xs: Seq<ExtraView>, id: Seq<char>, i: int)
    requires
        0 <= i < xs.len(),
    ensures
        contains(extra_lines(xs, id), extra_line(xs[i], id)),
    decreases xs.len(),
{
    let rest = xs.drop_last();
    let line = extra_line(xs.last(), id);
    if i == xs.len() - 1 {
        behind_is_contained(extra_lines(rest, id), line);
    } else {
        assert(rest[i] == xs[i]);
        line_of_each_extra(rest, id, i);
        contained_stays(extra_lines(rest, id), line, extra_line(xs[i], id));
    }
}

proof fn section_of_each_license(
    r: ResolutionView,
    ids: Seq<Seq<char>>,
    licenses_dir: Seq<char>,
    notices_dir: Seq<char>,
    i: int,
)
    requires
        0 <= i < ids.len(),
    ensures
        contains(
            sections(r, ids, licenses_dir, notices_dir),
            section(r, ids[i], licenses_dir, notices_dir),
        ),
    decreases ids.len(),
{
    let rest = ids.drop_last();
    let last = section(r, ids.last(), licenses_dir, notices_dir);
    if i == ids.len() - 1 {
        behind_is_contained(sections(r, rest, licenses_dir, notices_dir), last);
    } else {
        assert(rest[i] == ids[i]);
        section_of_each_license(r, rest, licenses_dir, notices_dir, i);
        contained_stays(
            sections(r, rest, licenses_dir, notices_dir),
            last,
            section(r, ids[i], licenses_dir, notices_dir),
        );
    }
}

/// What a part of a text contains, the whole contains.
proof fn part_of_part(s: Seq<char>, t: Seq<char>, p: Seq<char>)
    requires
        contains(s, t),
        contains(t, p),
    ensures
        contains(s, p),
{
    let i = choose|i: int| occurs_at(s, t, i);
    let j = choose|j: int| occurs_at(t, p, j);
    assert(s.subrange(i + j, i + j + p.len()) =~= t.subrange(j, j + p.len()));
    assert(occurs_at(s, p, i + j));
}

/// Every license in use has its section in the manifest: one that packages are attributed
/// under, and one that extra entries are.
pub proof fn each_license_has_its_section(
    r: ResolutionView,
    id: Seq<char>,
    licenses_dir: Seq<char>,
    notices_dir: Seq<char>,
)
    requires
        keys_of(r.by_license).contains(id) || keys_of(r.extra_by_license).contains(id),
    ensures
        contains(
            manifest_of(r, licenses_dir, notices_dir),
            section(r, id, licenses_dir, notices_dir),
        ),
{
    let a = keys_of(r.by_license).to_set();
    let b = keys_of(r.extra_by_license).to_set();
    let ids = license_ids(r.by_license, r.extra_by_license);
    vstd::seq_lib::seq_to_set_is_finite(keys_of(r.by_license));
    vstd::seq_lib::seq_to_set_is_finite(keys_of(r.extra_by_license));
    in_order_lists(a.union(b));
    assert(a.union(b).contains(id));
    assert(ids.to_set().contains(id));
    let k = choose|k: int| 0 <= k < ids.len() && ids[k] == id;
    section_of_each_license(r, ids, licenses_dir, notices_dir, k);
    contained_behind(
        manifest_head(licenses_dir, notices_dir, ships_notice(r.extras)),
        sections(r, ids, licenses_dir, notices_dir),
        section(r, id, licenses_dir, notices_dir),
    );
}

/// Every package that is attributed under a license has a line in the section of that
/// license: its own, or that of a package with the same id.
pub proof fn each_package_has_its_line(
    r: ResolutionView,
    id: Seq<char>,
    p: PackageView,
    licenses_dir: Seq<char>,
    notices_dir: Seq<char>,
)
    requires
        at(r.by_license, id) is Some,
        at(r.by_license, id)->0.contains(p),
    ensures
        exists|q: PackageView|
            q.id == p.id && at(r.by_license, id)->0.contains(q) && contains(
                manifest_of(r, licenses_dir, notices_dir),
                #[trigger] package_line(r, id, q, notices_dir),
            ),
{
    let ps = at(r.by_license, id)->0;
    let sorted_ps = arranged(ps);
    let kept = deduped(sorted_ps);
    arranged_holds_the_same(ps, p);
    let q = deduped_keeps_an_id(sorted_ps, p);
    arranged_holds_the_same(ps, q);
    let k = choose|k: int| 0 <= k < kept.len() && kept[k] == q;
    line_of_each_package(r, id, kept, notices_dir, k);
    let line = package_line(r, id, q, notices_dir);
    let lines = package_lines(r, id, kept, notices_dir);
    let head = "## "@ + id + "\n\nText: [`"@ + licenses_dir + "/"@ + id + ".txt`]("@ + licenses_dir
        + "/"@ + id + ".txt)\n\n"@;
    let more = extra_lines(or_none(at(r.extra_by_license, id)), id);
    contained_behind(head, lines, line);
    contained_stays(head + lines, more, line);
    contained_stays(head + lines + more, "\n"@, line);
    assert(section(r, id, licenses_dir, notices_dir) == head + lines + more + "\n"@);
    at_is_first(r.by_license, id);
    each_license_has_its_section(r, id, licenses_dir, notices_dir);
    part_of_part(
        manifest_of(r, licenses_dir, notices_dir),
        section(r, id, licenses_dir, notices_dir),
        line,
    );
}

/// Every extra entry that is attributed under a license has its line in the manifest.
pub proof fn each_extra_has_its_line(
    r: ResolutionView,
    id: Seq<char>,
    x: ExtraView,
    licenses_dir: Seq<char>,
    notices_dir: Seq<char>,
)
    requires
        at(r.extra_by_license, id) is Some,
        at(r.extra_by_license, id)->0.contains(x),
    ensures
        contains(manifest_of(r, licenses_dir, notices_dir), extra_line(x, id)),
{
    let xs = at(r.extra_by_license, id)->0;
    let k = choose|k: int| 0 <= k < xs.len() && xs[k] == x;
    line_of_each_extra(xs, id, k);
    let line = extra_line(x, id);
    let lines = extra_lines(xs, id);
    let head = "## "@ + id + "\n\nText: [`"@ + licenses_dir + "/"@ + id + ".txt`]("@ + licenses_dir
        + "/"@ + id + ".txt)\n\n"@ + package_lines(
        r,
        id,
        deduped(arranged(or_none(at(r.by_license, id)))),
        notices_dir,
    );
    contained_behind(head, lines, line);
    contained_stays(head + lines, "\n"@, line);
    assert(section(r, id, licenses_dir, notices_dir) == head + lines + "\n"@);
    at_is_first(r.extra_by_license, id);
    each_license_has_its_section(r, id, licenses_dir, notices_dir);
    part_of_part(
        manifest_of(r, licenses_dir, notices_dir),
        section(r, id, licenses_dir, notices_dir),
        line,
    );
}

} // verus!
