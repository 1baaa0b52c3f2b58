//! A run: from the graph and the settings to reports, checks and files.

use vstd::prelude::*;
use vstd::string::*;
use crate::bundle::{custom_texts, extras_rows, gather, local_rows, missing_text, notice_at, notice_rows, resolve_texts, text_at, text_rows, unread, LocalText, Shipped};
use crate::cli::{Failure, FailureView, Format, Output};
use crate::config::{Extra, ExtraView, Layout, Settings};
use crate::graph::{closure, deps_of, is_dep, package_at, roots_of, select_roots, Graph, GraphView, Package, PackageView, Walk};
use crate::harvest::{Extras, ExtrasView};
use crate::json::pretty_json;
use crate::manifest::{each_package_has_its_line, manifest_of, package_line, render_manifest};
use crate::notices::{notices_of, render_text};
use crate::plan::Counts;
use crate::report::{bom_json, render_cyclonedx, render_json, report_json};
use crate::resolution::{Resolution, ResolutionView};
use crate::resolve::{add_exceptions, attributed, attributed_list, chosen_at, chosen_table, each_dependency_is_judged, effective_at, effective_table, failures_in, found_by_its_id, group_by_license, has_exception, is_under, judge_extras, judge_packages, judged_extras, judged_packages, licensed, package_failures, package_judgement, some_of, JudgementView, Policy, PolicyView};
use crate::scan::{contains, join, joined};
use crate::sets::{at, at_is_first, in_order, keys_of, sorted, sorted_is_in_order, Table};
use crate::text::{cat2, cat3, owned};
use crate::warnings::{entry_warnings, unmatched_clarify, unmatched_exceptions, unused_accepted, unused_texts, unused_warnings, text_warnings};

verus! {

// ---------------------------------------------------------------- resolving

/// The license policy of the settings.
pub open spec fn policy_of(s: Settings) -> PolicyView {
    PolicyView {
        accepted: s.accepted.deep_view(),
        clarify: s.clarify.deep_view(),
        exceptions: s.exception.deep_view(),
    }
}

/// Which dependencies the settings follow and attribute.
pub open spec fn walk_of(s: Settings) -> Walk {
    Walk {
        include_dev: s.include_dev,
        include_build: s.include_build,
        skip_private: s.skip_private,
        skip_proc_macros: s.skip_proc_macros,
    }
}

/// What resolving the licenses of a graph produced.
pub struct Resolved<'a> {
    /// the ids of the attributed packages, in ascending order
    pub deps: Vec<String>,
    /// why the policy fails, if it does
    pub failures: Vec<String>,
    pub warnings: Vec<String>,
    pub effective: Table<String>,
    pub chosen_of: Table<Vec<String>>,
    pub by_license: Table<Vec<&'a Package>>,
    pub extra_by_license: Table<Vec<&'a Extra>>,
    pub extra_chosen: Vec<(&'a Extra, Vec<String>)>,
    pub used_exceptions: Vec<String>,
}

/// The warnings about entries that match or are used by nothing. The accepted list is
/// looked at only when it is given explicitly, and the run covers the whole workspace.
pub open spec fn resolve_warnings(
    s: Settings,
    packages: Seq<PackageView>,
    scoped: bool,
    js: Seq<(PackageView, JudgementView)>,
    xs: Seq<(ExtraView, JudgementView)>,
) -> Seq<Seq<char>> {
    unmatched_clarify(packages, s.clarify.deep_view()) + unmatched_exceptions(
        packages,
        s.exception.deep_view(),
    ) + if s.accepted_explicit && !scoped {
        unused_accepted(s.accepted.deep_view(), js, xs)
    } else {
        Seq::empty()
    }
}

/// The exceptions of everything that was judged, in ascending order.
pub open spec fn exceptions_used(
    js: Seq<(PackageView, JudgementView)>,
    xs: Seq<(ExtraView, JudgementView)>,
) -> Seq<Seq<char>> {
    in_order(Set::new(|e: Seq<char>| has_exception(js, e) || has_exception(xs, e)))
}

/// The resolution is that of the graph, with the packages that are reached from roots.
pub open spec fn resolves(
    r: Resolved,
    g: GraphView,
    s: Settings,
    roots: Seq<Seq<char>>,
    scoped: bool,
) -> bool {
    let deps = deps_of(g, walk_of(s), roots);
    let js = judged_packages(policy_of(s), g.packages, deps);
    let xs = judged_extras(s.accepted.deep_view(), s.extra.deep_view());
    &&& r.deps.deep_view() == deps
    &&& sorted(r.deps.deep_view())
    &&& forall|id: Seq<char>| #[trigger]
        r.deps.deep_view().contains(id) <==> is_dep(g, walk_of(s), roots, id)
    &&& r.failures.deep_view() == package_failures(policy_of(s), g.packages, deps) + failures_in(xs)
    &&& r.warnings.deep_view() == resolve_warnings(s, g.packages, scoped, js, xs)
    &&& r.effective.wf()
    &&& forall|id: Seq<char>| #[trigger] at(r.effective.deep_view(), id) == effective_at(js, id)
    &&& r.chosen_of.wf()
    &&& forall|id: Seq<char>| #[trigger] at(r.chosen_of.deep_view(), id) == chosen_at(js, id)
    &&& r.by_license.wf()
    &&& forall|lic: Seq<char>| #[trigger]
        at(r.by_license.deep_view(), lic) == some_of(licensed(js, lic))
    &&& r.extra_by_license.wf()
    &&& forall|lic: Seq<char>| #[trigger]
        at(r.extra_by_license.deep_view(), lic) == some_of(licensed(xs, lic))
    &&& r.extra_chosen.deep_view() == attributed(xs)
    &&& r.used_exceptions.deep_view() == exceptions_used(js, xs)
    &&& sorted(r.used_exceptions.deep_view())
    &&& forall|e: Seq<char>| #[trigger]
        r.used_exceptions.deep_view().contains(e) <==> has_exception(js, e) || has_exception(xs, e)
}

/// Resolves the licenses of all packages that the selected workspace members depend on,
/// and of the extra entries.
pub fn resolve_graph<'a>(graph: Option<&'a Graph>, set: &'a Settings, names: &Vec<String>) -> (r:
    Result<Resolved<'a>, Failure>)
    ensures
        match graph {
            None => r matches Err(f) && f.deep_view() == FailureView::Other(
                "no dependency resolution (need a Cargo.toml)"@,
            ),
            Some(g) => match roots_of(g.deep_view(), names.deep_view()) {
                Err(m) => r matches Err(f) && f.deep_view() == FailureView::Other(m),
                Ok(roots) => r matches Ok(res) && resolves(
                    res,
                    g.deep_view(),
                    *set,
                    roots,
                    names@.len() > 0,
                ),
            },
        },
{
    let g = match graph {
        Some(g) => g,
        None => return Err(Failure::Other(owned("no dependency resolution (need a Cargo.toml)"))),
    };
    let roots = match select_roots(g, names) {
        Ok(roots) => roots,
        Err(m) => return Err(Failure::Other(m)),
    };
    let deps = closure(g, set.walk(), &roots);
    let policy = Policy {
        accepted: &set.accepted,
        clarify: &set.clarify,
        exceptions: &set.exception,
    };
    let (js, mut failures) = judge_packages(&policy, &g.packages, &deps);
    let (xs, mut more) = judge_extras(&set.accepted, &set.extra);
    let ghost jv = js.deep_view();
    let ghost xv = xs.deep_view();
    let ghost f0 = failures.deep_view();
    let ghost f1 = more.deep_view();
    failures.append(&mut more);
    assert(failures.deep_view() =~= f0 + f1);
    let mut warnings = entry_warnings(&g.packages, &set.clarify, &set.exception);
    let ghost w0 = warnings.deep_view();
    if set.accepted_explicit && names.len() == 0 {
        let mut unused = unused_warnings(&set.accepted, &js, &xs);
        let ghost w1 = unused.deep_view();
        warnings.append(&mut unused);
        assert(warnings.deep_view() =~= w0 + w1);
    } else {
        assert(w0 + Seq::<Seq<char>>::empty() =~= w0);
    }
    let mut used: Vec<String> = Vec::new();
    add_exceptions(&js, &mut used);
    let ghost u0 = used.deep_view();
    add_exceptions(&xs, &mut used);
    proof {
        let want = Set::new(|e: Seq<char>| has_exception(jv, e) || has_exception(xv, e));
        assert forall|e: Seq<char>| used.deep_view().to_set().contains(e) == want.contains(e) by {
            assert(used.deep_view().contains(e) == (u0.contains(e) || has_exception(xv, e)));
            assert(u0.contains(e) == has_exception(jv, e));
        }
        assert forall|e: Seq<char>| #[trigger] used.deep_view().contains(e) == (has_exception(
            jv,
            e,
        ) || has_exception(xv, e)) by {
            assert(u0.contains(e) == has_exception(jv, e));
        }
        assert(used.deep_view().to_set() =~= want);
        sorted_is_in_order(used.deep_view());
    }
    Ok(
        Resolved {
            deps,
            failures,
            warnings,
            effective: effective_table(&js),
            chosen_of: chosen_table(&js),
            by_license: group_by_license(&js),
            extra_by_license: group_by_license(&xs),
            extra_chosen: attributed_list(&xs),
            used_exceptions: used,
        },
    )
}

/// What the renderers see of a resolution.
pub open spec fn resolution_of(
    r: Resolved,
    packages: Seq<PackageView>,
    extras: Seq<(Seq<char>, ExtrasView)>,
) -> ResolutionView {
    ResolutionView {
        deps: r.deps.deep_view(),
        packages,
        effective: r.effective.deep_view(),
        chosen_of: r.chosen_of.deep_view(),
        by_license: r.by_license.deep_view(),
        extra_by_license: r.extra_by_license.deep_view(),
        extra_chosen: r.extra_chosen.deep_view(),
        used_exceptions: r.used_exceptions.deep_view(),
        extras,
    }
}

/// Everything that was resolved, for the renderers.
pub fn resolution<'b>(
    r: &'b Resolved<'b>,
    packages: &'b Vec<Package>,
    extras: &'b Table<Extras>,
) -> (res: Resolution<'b>)
    ensures
        res.deep_view() == resolution_of(*r, packages.deep_view(), extras.deep_view()),
{
    Resolution {
        deps: &r.deps,
        packages,
        effective: &r.effective,
        chosen_of: &r.chosen_of,
        by_license: &r.by_license,
        extra_by_license: &r.extra_by_license,
        extra_chosen: &r.extra_chosen,
        used_exceptions: &r.used_exceptions,
        extras,
    }
}

/// The ids that need a text: those of licenses, then those of exceptions.
pub open spec fn text_ids_of(r: Resolved) -> Seq<Seq<char>> {
    keys_of(r.by_license.deep_view()) + keys_of(r.extra_by_license.deep_view())
        + r.used_exceptions.deep_view()
}

/// Appends the keys of a table.
fn append_keys<V: DeepView>(out: &mut Vec<String>, t: &Table<V>)
    ensures
        final(out).deep_view() == old(out).deep_view() + keys_of(t.deep_view()),
{
    let ghost was = out.deep_view();
    let ghost ks = keys_of(t.deep_view());
    let mut i: usize = 0;
    assert(was + ks.take(0) =~= was);
    while i < t.rows.len()
        invariant
            ks == keys_of(t.deep_view()),
            i <= t.rows@.len(),
            out.deep_view() == was + ks.take(i as int),
        decreases t.rows.len() - i,
    {
        let ghost o = out.deep_view();
        out.push(owned(t.rows[i].0.as_str()));
        assert(ks[i as int] == t.rows@[i as int].0@);
        assert(out.deep_view() =~= o.push(ks[i as int]));
        assert(was + ks.take(i + 1) =~= (was + ks.take(i as int)).push(ks[i as int]));
        i += 1;
    }
    assert(ks.take(i as int) =~= ks);
}

/// The ids that need a text.
pub fn text_ids(r: &Resolved) -> (ids: Vec<String>)
    ensures
        ids.deep_view() == text_ids_of(*r),
{
    let mut out: Vec<String> = Vec::new();
    let ghost a = keys_of(r.by_license.deep_view());
    let ghost b = keys_of(r.extra_by_license.deep_view());
    append_keys(&mut out, &r.by_license);
    assert(out.deep_view() =~= a);
    append_keys(&mut out, &r.extra_by_license);
    let mut more = r.used_exceptions.clone();
    let ghost m = more.deep_view();
    let ghost o = out.deep_view();
    out.append(&mut more);
    assert(out.deep_view() =~= o + m);
    out
}

// ---------------------------------------------------------------- the policy gate

/// A failure as a warning.
pub open spec fn as_warning(f: Seq<char>) -> Seq<char> {
    "cargo-tribute: warning: "@ + f
}

/// The failure of the policy.
pub open spec fn policy_failure(failures: Seq<Seq<char>>) -> Seq<char> {
    "license policy failed:\n  "@ + joined(failures, "\n  "@)
        + "\n  (fix in tribute.toml: `accepted` allows a license everywhere, [[exception]] for one crate, [[clarify]] when the declared expression is wrong)"@
}

/// The report describes the tree as it is, whatever the policy makes of it.
pub open spec fn describes(format: Option<Format>) -> bool {
    format == Some(Format::Json) || format == Some(Format::CycloneDx)
}

/// The policy gate: failures end the run, but for a report that describes the tree as it
/// is, where they are warnings.
pub fn gate(failures: &Vec<String>, format: Option<Format>) -> (r: Result<Vec<String>, Failure>)
    ensures
        match r {
            Ok(w) => (failures@.len() == 0 || describes(format)) && w.deep_view()
                == failures.deep_view().map_values(|f: Seq<char>| as_warning(f)),
            Err(f) => failures@.len() > 0 && !describes(format) && f.deep_view()
                == FailureView::Policy(policy_failure(failures.deep_view())),
        },
{
    let lenient = match format {
        Some(Format::Json) => true,
        Some(Format::CycloneDx) => true,
        _ => false,
    };
    if failures.len() > 0 && !lenient {
        let list = join(failures, "\n  ");
        return Err(
            Failure::Policy(
                cat3(
                    "license policy failed:\n  ",
                    list.as_str(),
                    "\n  (fix in tribute.toml: `accepted` allows a license everywhere, [[exception]] for one crate, [[clarify]] when the declared expression is wrong)",
                ),
            ),
        );
    }
    let ghost all = failures.deep_view();
    let mut out: Vec<String> = Vec::new();
    let mut i: usize = 0;
    while i < failures.len()
        invariant
            all == failures.deep_view(),
            i <= failures@.len(),
            out@.len() == i,
            forall|j: int| 0 <= j < i ==> (#[trigger] out@[j])@ == as_warning(all[j]),
        decreases failures.len() - i,
    {
        out.push(cat2("cargo-tribute: warning: ", failures[i].as_str()));
        i += 1;
    }
    assert(out.deep_view() =~= all.map_values(|f: Seq<char>| as_warning(f)));
    Ok(out)
}

// ---------------------------------------------------------------- reports

/// The document of a report.
pub open spec fn report_of(
    format: Format,
    r: ResolutionView,
    texts: Seq<(Seq<char>, Seq<char>)>,
) -> Seq<char> {
    match format {
        Format::Json => pretty_json(report_json(r)),
        Format::Text => notices_of(r, texts),
        Format::CycloneDx => pretty_json(bom_json(r, texts)),
    }
}

/// The report in a format. It never writes or checks files.
pub fn report(format: Format, res: &Resolution, texts: &Table<String>) -> (r: Result<
    Output,
    Failure,
>)
    ensures
        r matches Ok(Output::Report(s)) && s@ == report_of(
            format,
            res.deep_view(),
            texts.deep_view(),
        ),
{
    let doc = match format {
        Format::Json => render_json(res),
        Format::Text => Ok(render_text(res, texts)),
        Format::CycloneDx => render_cyclonedx(res, texts),
    };
    match doc {
        Ok(s) => Ok(Output::Report(s)),
        Err(m) => Err(Failure::Other(m)),
    }
}

/// The documents that a layout asks for.
pub struct Documents {
    pub manifest: Option<String>,
    pub flat: Option<String>,
}

/// The layout has the folders and the manifest.
pub open spec fn has_folders(l: Layout) -> bool {
    l == Layout::Folders || l == Layout::Both
}

/// The layout has the all-in-one notices file.
pub open spec fn has_flat(l: Layout) -> bool {
    l == Layout::Flat || l == Layout::Both
}

/// The manifest, if the layout of the settings has it.
pub open spec fn manifest_doc(s: Settings, r: ResolutionView) -> Option<Seq<char>> {
    if has_folders(s.layout) {
        Some(manifest_of(r, s.licenses_link@, s.notices_link@))
    } else {
        None
    }
}

/// The all-in-one notices file, if the layout of the settings has it.
pub open spec fn flat_doc(
    s: Settings,
    r: ResolutionView,
    texts: Seq<(Seq<char>, Seq<char>)>,
) -> Option<Seq<char>> {
    if has_flat(s.layout) {
        Some(notices_of(r, texts))
    } else {
        None
    }
}

/// The documents that the layout of the settings asks for.
pub fn documents(set: &Settings, res: &Resolution, texts: &Table<String>) -> (r: Documents)
    ensures
        r.manifest.deep_view() == manifest_doc(*set, res.deep_view()),
        r.flat.deep_view() == flat_doc(*set, res.deep_view(), texts.deep_view()),
{
    let (folders, flat) = match set.layout {
        Layout::Folders => (true, false),
        Layout::Flat => (false, true),
        Layout::Both => (true, true),
    };
    Documents {
        manifest: if folders {
            Some(render_manifest(res, set.licenses_link.as_str(), set.notices_link.as_str()))
        } else {
            None
        },
        flat: if flat {
            Some(render_text(res, texts))
        } else {
            None
        },
    }
}

// ---------------------------------------------------------------- preparing the output

/// What a run checks or writes.
pub struct Files {
    pub texts: Table<String>,
    pub notices: Table<String>,
    pub docs: Documents,
    pub counts: Counts,
}

/// What is left to do.
pub enum Next {
    /// nothing: the report is all that was asked for
    Done(Output),
    /// to check or write files
    Files(Files),
}

/// The files are those of a resolution.
pub open spec fn files_of(
    f: Files,
    s: Settings,
    rv: ResolutionView,
    texts: Seq<(Seq<char>, Seq<char>)>,
    notices: Seq<(Seq<char>, Seq<char>)>,
) -> bool {
    &&& f.texts.wf() && f.texts.deep_view() == texts
    &&& f.notices.wf() && f.notices.deep_view() == notices
    &&& f.docs.manifest.deep_view() == manifest_doc(s, rv)
    &&& f.docs.flat.deep_view() == flat_doc(s, rv, texts)
    &&& f.counts.texts == texts.len()
    &&& f.counts.notices == notices.len()
    &&& f.counts.crates == rv.deps.len()
    &&& f.counts.extras == rv.extra_chosen.len()
}

/// A report, or the files that a run checks or writes; warnings about texts that nothing
/// uses are appended.
pub fn prepare<'b>(
    set: &Settings,
    format: Option<Format>,
    r: &'b Resolved<'b>,
    packages: &'b Vec<Package>,
    shipped: &Vec<Shipped<'b>>,
    local: &Vec<LocalText>,
    warnings: &mut Vec<String>,
) -> (res: Result<Next, Failure>)
    ensures
        ({
            let custom = local_rows(local@);
            let ids = text_ids_of(*r);
            let texts = text_rows(custom, ids);
            let rv = resolution_of(
                *r,
                packages.deep_view(),
                extras_rows(shipped.deep_view()),
            );
            match unread(local@) {
                Some(m) => res matches Err(f) && f.deep_view() == FailureView::Other(m)
                    && final(warnings).deep_view() == old(warnings).deep_view(),
                None => match missing_text(custom, ids) {
                    Some(m) => res matches Err(f) && f.deep_view() == FailureView::Other(m)
                        && final(warnings).deep_view() == old(warnings).deep_view(),
                    None => final(warnings).deep_view() == old(warnings).deep_view()
                        + unused_texts(set.license_text.deep_view(), keys_of(texts))
                        && match format {
                        Some(f) => res matches Ok(Next::Done(Output::Report(s))) && s@ == report_of(
                            f,
                            rv,
                            texts,
                        ),
                        None => {
                            &&& res matches Ok(Next::Files(files))
                            &&& files_of(files, *set, rv, texts, notice_rows(shipped.deep_view()))
                            &&& forall|id: Seq<char>| #[trigger]
                                at(files.texts.deep_view(), id) == text_at(custom, ids, id)
                            &&& forall|k: Seq<char>| #[trigger]
                                at(files.notices.deep_view(), k) == notice_at(shipped.deep_view(), k)
                        },
                    },
                },
            }
        }),
{
    let (extras, notices) = gather(shipped);
    let custom = match custom_texts(local) {
        Ok(t) => t,
        Err(m) => return Err(Failure::Other(m)),
    };
    let ids = text_ids(r);
    let texts = match resolve_texts(&ids, &custom) {
        Ok(t) => t,
        Err(m) => return Err(Failure::Other(m)),
    };
    let ghost was = warnings.deep_view();
    let mut more = text_warnings(&set.license_text, &texts);
    let ghost m = more.deep_view();
    warnings.append(&mut more);
    assert(warnings.deep_view() =~= was + m);
    let view = resolution(r, packages, &extras);
    if let Some(f) = format {
        return match report(f, &view, &texts) {
            Ok(out) => Ok(Next::Done(out)),
            Err(e) => Err(e),
        };
    }
    let docs = documents(set, &view, &texts);
    let counts = Counts {
        texts: texts.rows.len(),
        notices: notices.rows.len(),
        crates: r.deps.len(),
        extras: r.extra_chosen.len(),
    };
    Ok(Next::Files(Files { texts, notices, docs, counts }))
}

// ---------------------------------------------------------------- laws

/// The attribution is complete: a dependency whose license is accepted has a line in the
/// manifest under each license that was chosen for it, and that license is among those
/// that need a text.
pub proof fn accepted_dependency_is_attributed(
    r: Resolved,
    g: GraphView,
    s: Settings,
    roots: Seq<Seq<char>>,
    scoped: bool,
    extras: Seq<(Seq<char>, ExtrasView)>,
    id: Seq<char>,
    lic: Seq<char>,
)
    requires
        resolves(r, g, s, roots, scoped),
        deps_of(g, walk_of(s), roots).contains(id),
        package_at(g.packages, id) is Some,
        is_under(package_judgement(policy_of(s), package_at(g.packages, id)->0), lic),
    ensures
        exists|q: PackageView|
            q.id == id && contains(
                manifest_of(
                    resolution_of(r, g.packages, extras),
                    s.licenses_link@,
                    s.notices_link@,
                ),
                #[trigger] package_line(
                    resolution_of(r, g.packages, extras),
                    lic,
                    q,
                    s.notices_link@,
                ),
            ),
        text_ids_of(r).contains(lic),
{
    let deps = deps_of(g, walk_of(s), roots);
    let p = package_at(g.packages, id)->0;
    let js = judged_packages(policy_of(s), g.packages, deps);
    let rv = resolution_of(r, g.packages, extras);
    let i = choose|i: int| 0 <= i < deps.len() && deps[i] == id;
    each_dependency_is_judged(policy_of(s), g.packages, deps, i);
    found_by_its_id(g.packages, id);
    let l = licensed(js, lic);
    assert(l.contains(p));
    assert(at(rv.by_license, lic) == some_of(l));
    each_package_has_its_line(rv, lic, p, s.licenses_link@, s.notices_link@);
    at_is_first(rv.by_license, lic);
    let a = keys_of(rv.by_license);
    let k = choose|k: int| 0 <= k < a.len() && a[k] == lic;
    assert(text_ids_of(r)[k] == lic);
}

} // verus!
