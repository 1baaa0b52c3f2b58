//! What the manifest tells.

use vstd::prelude::*;
use crate::config::ExtraView;
use crate::graph::PackageView;
use crate::harvest::ExtrasView;
use crate::laws::texts::{between, free_of, joined_holds_each, joined_reads_back, part_of_part};
use crate::manifest::{
    each_license_has_its_section, extra_line, extra_lines, manifest_of, package_line, package_lines,
    section, sections,
};
use crate::resolution::{
    arranged, arranged_holds_the_same, deduped, deduped_keeps_an_id, license_ids, shown_authors,
    source_url, ResolutionView,
};
use crate::scan::{contains, joined};
use crate::sets::{at, at_is_first, in_order_lists, keys_of, sorted};

verus! {

// ---------------------------------------------------------------- the line of a package

/// A package whose expression is just the license, and of which no holders are known, has a
/// line with its name, its version and its address.
pub proof fn plain_line(r: ResolutionView, id: Seq<char>, p: PackageView, notices_dir: Seq<char>)
    requires
        at(r.effective, p.id) is None || at(r.effective, p.id) == Some(id),
        at(r.extras, p.id) is None,
    ensures
        package_line(r, id, p, notices_dir) == "- ["@ + p.name + " "@ + p.version + "]("@ + source_url(p) + ")\n"@,
{
    reveal_strlit(")");
    reveal_strlit("\n");
    reveal_strlit(")\n");
    assert(package_line(r, id, p, notices_dir) =~= "- ["@ + p.name + " "@ + p.version + "]("@ + source_url(p)
        + ")\n"@);
}

/// The line of a package starts with its name, its version and its address, and ends with
/// a line feed; between them stand its expression where that is more than the license, its
/// holders, and the address of its NOTICE.
pub proof fn line_has_three_notes(
    r: ResolutionView,
    id: Seq<char>,
    p: PackageView,
    notices_dir: Seq<char>,
) -> (notes: (Seq<char>, Seq<char>, Seq<char>))
    ensures
        package_line(r, id, p, notices_dir) == "- ["@ + p.name + " "@ + p.version + "]("@ + source_url(p) + ")"@
            + notes.0 + notes.1 + notes.2 + "\n"@,
        notes.0 == match at(r.effective, p.id) {
            Some(e) if e != id => " -- `"@ + e + "`"@,
            _ => Seq::empty(),
        },
        notes.1 == match at(r.extras, p.id) {
            Some(x) if x.copyrights.len() > 0 => " -- "@ + joined(x.copyrights, "; "@),
            Some(x) if shown_authors(x.authors).len() > 0 => " -- by "@ + joined(shown_authors(x.authors), ", "@),
            _ => Seq::empty(),
        },
        notes.2 == match at(r.extras, p.id) {
            Some(x) if x.notice is Some => " -- [NOTICE]("@ + notices_dir + "/"@ + p.name + "-"@ + p.version
                + ".txt)"@,
            _ => Seq::empty(),
        },
{
    let e = match at(r.effective, p.id) {
        Some(e) if e != id => " -- `"@ + e + "`"@,
        _ => Seq::empty(),
    };
    let h = match at(r.extras, p.id) {
        Some(x) if x.copyrights.len() > 0 => " -- "@ + joined(x.copyrights, "; "@),
        Some(x) if shown_authors(x.authors).len() > 0 => " -- by "@ + joined(shown_authors(x.authors), ", "@),
        _ => Seq::empty(),
    };
    let n = match at(r.extras, p.id) {
        Some(x) if x.notice is Some => " -- [NOTICE]("@ + notices_dir + "/"@ + p.name + "-"@ + p.version + ".txt)"@,
        _ => Seq::empty(),
    };
    assert(package_line(r, id, p, notices_dir) =~= "- ["@ + p.name + " "@ + p.version + "]("@ + source_url(p) + ")"@
        + e + h + n + "\n"@);
    (e, h, n)
}

/// The line of a package holds every statement that was harvested for it, in full.
pub proof fn line_holds_each_statement(
    r: ResolutionView,
    id: Seq<char>,
    p: PackageView,
    notices_dir: Seq<char>,
    x: ExtrasView,
    i: int,
)
    requires
        at(r.extras, p.id) == Some(x),
        0 <= i < x.copyrights.len(),
    ensures
        contains(package_line(r, id, p, notices_dir), x.copyrights[i]),
{
    let notes = line_has_three_notes(r, id, p, notices_dir);
    let all = joined(x.copyrights, "; "@);
    let head = "- ["@ + p.name + " "@ + p.version + "]("@ + source_url(p) + ")"@ + notes.0 + " -- "@;
    let tail = notes.2 + "\n"@;
    between(head, all, tail);
    assert(head + all + tail =~= package_line(r, id, p, notices_dir));
    joined_holds_each(x.copyrights, "; "@, i);
    part_of_part(package_line(r, id, p, notices_dir), all, x.copyrights[i]);
}

/// Where no statement was harvested, the line holds the name of every author that has one.
pub proof fn line_holds_each_author(
    r: ResolutionView,
    id: Seq<char>,
    p: PackageView,
    notices_dir: Seq<char>,
    x: ExtrasView,
    i: int,
)
    requires
        at(r.extras, p.id) == Some(x),
        x.copyrights.len() == 0,
        0 <= i < shown_authors(x.authors).len(),
    ensures
        contains(package_line(r, id, p, notices_dir), shown_authors(x.authors)[i]),
{
    let notes = line_has_three_notes(r, id, p, notices_dir);
    let names = shown_authors(x.authors);
    let all = joined(names, ", "@);
    let head = "- ["@ + p.name + " "@ + p.version + "]("@ + source_url(p) + ")"@ + notes.0 + " -- by "@;
    let tail = notes.2 + "\n"@;
    between(head, all, tail);
    assert(head + all + tail =~= package_line(r, id, p, notices_dir));
    joined_holds_each(names, ", "@, i);
    part_of_part(package_line(r, id, p, notices_dir), all, names[i]);
}

/// The line of a package tells its statements apart: two lists of statements that hold no
/// separator give the same line only if they are the same.
pub proof fn statements_read_back(
    a: ResolutionView,
    b: ResolutionView,
    id: Seq<char>,
    p: PackageView,
    notices_dir: Seq<char>,
    x: ExtrasView,
    y: ExtrasView,
)
    requires
        at(a.effective, p.id) == at(b.effective, p.id),
        at(a.extras, p.id) == Some(x),
        at(b.extras, p.id) == Some(y),
        x.copyrights.len() > 0 && y.copyrights.len() > 0,
        x.notice is Some == y.notice is Some,
        forall|i: int| 0 <= i < x.copyrights.len() ==> free_of(#[trigger] x.copyrights[i], "; "@),
        forall|i: int| 0 <= i < y.copyrights.len() ==> free_of(#[trigger] y.copyrights[i], "; "@),
        package_line(a, id, p, notices_dir) == package_line(b, id, p, notices_dir),
    ensures
        x.copyrights == y.copyrights,
{
    reveal_strlit("; ");
    let m = line_has_three_notes(a, id, p, notices_dir);
    let n = line_has_three_notes(b, id, p, notices_dir);
    let head = "- ["@ + p.name + " "@ + p.version + "]("@ + source_url(p) + ")"@ + m.0 + " -- "@;
    let tail = m.2 + "\n"@;
    let u = joined(x.copyrights, "; "@);
    let v = joined(y.copyrights, "; "@);
    let s = package_line(a, id, p, notices_dir);
    assert(s =~= head + u + tail);
    assert(s =~= head + v + tail);
    assert(u.len() == v.len());
    assert(u =~= s.subrange(head.len() as int, (head.len() + u.len()) as int));
    assert(v =~= s.subrange(head.len() as int, (head.len() + v.len()) as int));
    joined_reads_back(x.copyrights, y.copyrights, "; "@);
}

/// In the manifest stands, for every package that is attributed under a license, every
/// statement that was harvested for it, in full, within the line of that package.
pub proof fn manifest_holds_each_statement(
    r: ResolutionView,
    id: Seq<char>,
    p: PackageView,
    licenses_dir: Seq<char>,
    notices_dir: Seq<char>,
    x: ExtrasView,
    i: int,
)
    requires
        at(r.by_license, id) is Some,
        at(r.by_license, id)->0.contains(p),
        at(r.extras, p.id) == Some(x),
        0 <= i < x.copyrights.len(),
    ensures
        exists|q: PackageView|
            {
                &&& q.id == p.id
                &&& at(r.by_license, id)->0.contains(q)
                &&& contains(#[trigger] package_line(r, id, q, notices_dir), x.copyrights[i])
                &&& contains(section(r, id, licenses_dir, notices_dir), package_line(r, id, q, notices_dir))
                &&& contains(manifest_of(r, licenses_dir, notices_dir), package_line(r, id, q, notices_dir))
            },
        contains(manifest_of(r, licenses_dir, notices_dir), x.copyrights[i]),
{
    let q = package_has_its_line(r, id, p, licenses_dir, notices_dir);
    line_holds_each_statement(r, id, q, notices_dir, x, i);
    let line = package_line(r, id, q, notices_dir);
    part_of_part(manifest_of(r, licenses_dir, notices_dir), line, x.copyrights[i]);
}

// ---------------------------------------------------------------- the line of an extra

/// The line of an extra entry holds its name, with its address where it has one, its
/// expression where that is more than the license, and its copyright where it has one.
pub proof fn extra_line_has_its_parts(x: ExtraView, id: Seq<char>)
    ensures
        extra_line(x, id) == (match x.url {
            Some(u) => "- ["@ + x.name + "]("@ + u + ")"@,
            None => "- "@ + x.name,
        }) + (if x.expression != id {
            " -- `"@ + x.expression + "`"@
        } else {
            Seq::empty()
        }) + (match x.copyright {
            Some(c) => " -- "@ + c,
            None => Seq::empty(),
        }) + "\n"@,
{
}

// ---------------------------------------------------------------- sections

proof fn package_lines_are_joined(r: ResolutionView, id: Seq<char>, ps: Seq<PackageView>, notices_dir: Seq<char>)
    ensures
        package_lines(r, id, ps, notices_dir) == joined(
            Seq::new(ps.len(), |i: int| package_line(r, id, ps[i], notices_dir)),
            Seq::empty(),
        ),
    decreases ps.len(),
{
    let all = Seq::new(ps.len(), |i: int| package_line(r, id, ps[i], notices_dir));
    if ps.len() > 0 {
        let rest = ps.drop_last();
        package_lines_are_joined(r, id, rest, notices_dir);
        let less = Seq::new(rest.len(), |i: int| package_line(r, id, rest[i], notices_dir));
        assert(all.drop_last() =~= less);
        if ps.len() == 1 {
            assert(joined(less, Seq::empty()) =~= Seq::<char>::empty());
            assert(package_lines(r, id, ps, notices_dir) =~= all[0]);
        } else {
            assert(joined(all, Seq::empty()) =~= joined(less, Seq::empty()) + all.last());
        }
    }
}

proof fn extra_lines_are_joined(xs: Seq<ExtraView>, id: Seq<char>)
    ensures
        extra_lines(xs, id) == joined(Seq::new(xs.len(), |i: int| extra_line(xs[i], id)), Seq::empty()),
    decreases xs.len(),
{
    let all = Seq::new(xs.len(), |i: int| extra_line(xs[i], id));
    if xs.len() > 0 {
        let rest = xs.drop_last();
        extra_lines_are_joined(rest, id);
        let less = Seq::new(rest.len(), |i: int| extra_line(rest[i], id));
        assert(all.drop_last() =~= less);
        if xs.len() == 1 {
            assert(joined(less, Seq::empty()) =~= Seq::<char>::empty());
            assert(extra_lines(xs, id) =~= all[0]);
        } else {
            assert(joined(all, Seq::empty()) =~= joined(less, Seq::empty()) + all.last());
        }
    }
}

proof fn sections_are_joined(r: ResolutionView, ids: Seq<Seq<char>>, licenses_dir: Seq<char>, notices_dir: Seq<char>)
    ensures
        sections(r, ids, licenses_dir, notices_dir) == joined(
            Seq::new(ids.len(), |i: int| section(r, ids[i], licenses_dir, notices_dir)),
            Seq::empty(),
        ),
    decreases ids.len(),
{
    let all = Seq::new(ids.len(), |i: int| section(r, ids[i], licenses_dir, notices_dir));
    if ids.len() > 0 {
        let rest = ids.drop_last();
        sections_are_joined(r, rest, licenses_dir, notices_dir);
        let less = Seq::new(rest.len(), |i: int| section(r, rest[i], licenses_dir, notices_dir));
        assert(all.drop_last() =~= less);
        if ids.len() == 1 {
            assert(joined(less, Seq::empty()) =~= Seq::<char>::empty());
            assert(sections(r, ids, licenses_dir, notices_dir) =~= all[0]);
        } else {
            assert(joined(all, Seq::empty()) =~= joined(less, Seq::empty()) + all.last());
        }
    }
}

/// The section of a license names it, gives the address of its text, and lists the lines of
/// the packages that are attributed under it, by name and version, then those of the extra
/// entries; nothing else stands in it.
pub proof fn section_lists_packages_then_extras(
    r: ResolutionView,
    id: Seq<char>,
    licenses_dir: Seq<char>,
    notices_dir: Seq<char>,
    ps: Seq<PackageView>,
    xs: Seq<ExtraView>,
)
    requires
        at(r.by_license, id) == Some(ps) || at(r.by_license, id) is None && ps.len() == 0,
        at(r.extra_by_license, id) == Some(xs) || at(r.extra_by_license, id) is None && xs.len() == 0,
    ensures
        ({
            let shown = deduped(arranged(ps));
            section(r, id, licenses_dir, notices_dir) == "## "@ + id + "\n\nText: [`"@ + licenses_dir + "/"@ + id
                + ".txt`]("@ + licenses_dir + "/"@ + id + ".txt)\n\n"@ + joined(
                Seq::new(shown.len(), |i: int| package_line(r, id, shown[i], notices_dir)),
                Seq::empty(),
            ) + joined(Seq::new(xs.len(), |i: int| extra_line(xs[i], id)), Seq::empty()) + "\n"@
        }),
{
    let shown = deduped(arranged(ps));
    package_lines_are_joined(r, id, shown, notices_dir);
    extra_lines_are_joined(xs, id);
    assert(ps.len() == 0 ==> ps =~= Seq::<PackageView>::empty());
    assert(xs.len() == 0 ==> xs =~= Seq::<ExtraView>::empty());
}

/// The manifest has one section for every license that a package or an extra entry is
/// attributed under, by id, and none besides; the folder of the NOTICE files is named at
/// its head exactly when a package ships one.
pub proof fn manifest_is_head_and_sections(
    r: ResolutionView,
    licenses_dir: Seq<char>,
    notices_dir: Seq<char>,
) -> (ids: Seq<Seq<char>>)
    ensures
        sorted(ids),
        forall|id: Seq<char>| #[trigger]
            ids.contains(id) <==> at(r.by_license, id) is Some || at(r.extra_by_license, id) is Some,
        manifest_of(r, licenses_dir, notices_dir)
            == "# Third-party licenses\n\nDependencies linked into this crate, grouped by license; full texts are in [`"@
            + licenses_dir + "/`]("@ + licenses_dir + ")"@ + (if exists|i: int|
            0 <= i < r.extras.len() && (#[trigger] r.extras[i]).1.notice is Some {
            ", NOTICE files shipped by dependencies in [`"@ + notices_dir + "/`]("@ + notices_dir + ")"@
        } else {
            Seq::empty()
        }) + ". Generated by `cargo tribute`; do not edit.\n\n"@ + joined(
            Seq::new(ids.len(), |i: int| section(r, ids[i], licenses_dir, notices_dir)),
            Seq::empty(),
        ),
{
    let ids = license_ids(r.by_license, r.extra_by_license);
    licenses_are_listed_once(r.by_license, r.extra_by_license);
    sections_are_joined(r, ids, licenses_dir, notices_dir);
    ids
}

/// The licenses are those of packages and of extra entries, each once, by id.
pub proof fn licenses_are_listed_once<P, X>(by_license: Seq<(Seq<char>, P)>, extra_by_license: Seq<(Seq<char>, X)>)
    ensures
        sorted(license_ids(by_license, extra_by_license)),
        forall|id: Seq<char>| #[trigger]
            license_ids(by_license, extra_by_license).contains(id) <==> at(by_license, id) is Some || at(
                extra_by_license,
                id,
            ) is Some,
{
    let a = keys_of(by_license).to_set();
    let b = keys_of(extra_by_license).to_set();
    vstd::seq_lib::seq_to_set_is_finite(keys_of(by_license));
    vstd::seq_lib::seq_to_set_is_finite(keys_of(extra_by_license));
    in_order_lists(a.union(b));
    let ids = license_ids(by_license, extra_by_license);
    assert forall|id: Seq<char>| #[trigger]
        ids.contains(id) <==> at(by_license, id) is Some || at(extra_by_license, id) is Some by {
        at_is_first(by_license, id);
        at_is_first(extra_by_license, id);
        assert(ids.to_set().contains(id) <==> ids.contains(id));
        assert(a.contains(id) <==> keys_of(by_license).contains(id));
        assert(b.contains(id) <==> keys_of(extra_by_license).contains(id));
    }
}

/// A package that is attributed under a license has its line in the section of that license.
pub proof fn package_has_its_line(
    r: ResolutionView,
    id: Seq<char>,
    p: PackageView,
    licenses_dir: Seq<char>,
    notices_dir: Seq<char>,
) -> (q: PackageView)
    requires
        at(r.by_license, id) is Some,
        at(r.by_license, id)->0.contains(p),
    ensures
        q.id == p.id,
        at(r.by_license, id)->0.contains(q),
        contains(section(r, id, licenses_dir, notices_dir), package_line(r, id, q, notices_dir)),
        contains(manifest_of(r, licenses_dir, notices_dir), package_line(r, id, q, notices_dir)),
{
    let ps = at(r.by_license, id)->0;
    let xs = match at(r.extra_by_license, id) {
        Some(xs) => xs,
        None => Seq::empty(),
    };
    arranged_holds_the_same(ps, p);
    let q = deduped_keeps_an_id(arranged(ps), p);
    arranged_holds_the_same(ps, q);
    let shown = deduped(arranged(ps));
    let lines = Seq::new(shown.len(), |i: int| package_line(r, id, shown[i], notices_dir));
    let i = choose|i: int| 0 <= i < shown.len() && shown[i] == q;
    joined_holds_each(lines, Seq::empty(), i);
    section_lists_packages_then_extras(r, id, licenses_dir, notices_dir, ps, xs);
    let all = joined(lines, Seq::empty());
    let head = "## "@ + id + "\n\nText: [`"@ + licenses_dir + "/"@ + id + ".txt`]("@ + licenses_dir + "/"@ + id
        + ".txt)\n\n"@;
    let tail = joined(Seq::new(xs.len(), |i: int| extra_line(xs[i], id)), Seq::empty()) + "\n"@;
    between(head, all, tail);
    let s = section(r, id, licenses_dir, notices_dir);
    assert(head + all + tail =~= s);
    part_of_part(s, all, lines[i]);
    at_is_first(r.by_license, id);
    each_license_has_its_section(r, id, licenses_dir, notices_dir);
    part_of_part(manifest_of(r, licenses_dir, notices_dir), s, lines[i]);
    q
}

} // verus!
