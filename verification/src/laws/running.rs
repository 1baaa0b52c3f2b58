//! What a run works out, and in which order.

use vstd::prelude::*;
use crate::cli::Format;
use crate::config::{AcceptView, ExtraView, Layout, Settings};
use crate::graph::{deps_of, is_dep, package_at, GraphView, PackageView, Walk};
use crate::harvest::ExtrasView;
use crate::json::pretty_json;
use crate::laws::judging::{
    attributed_is_what_has_a_choice, each_failure_is_reported, each_judged_failure_is_listed,
    each_package_is_judged, under_a_license_stands_what_chose_it,
};
use crate::laws::texts::{between, joined_holds_each, part_of_part};
use crate::manifest::manifest_of;
use crate::notices::notices_of;
use crate::report::{bom_json, report_json};
use crate::resolution::ResolutionView;
use crate::resolve::{
    attributed, each_dependency_is_judged, effective_at, extra_judgement, failures_in,
    has_exception, is_under, judged_extras, judged_packages, licensed, no_package, package_failures,
    package_judgement, shown_id, some_of, JudgementView, PolicyView,
};
use crate::run::{
    as_warning, describes, files_of, flat_doc, manifest_doc, policy_failure, policy_of, report_of,
    resolution_of, resolve_warnings, resolves, text_ids_of, walk_of, Files, Resolved,
};
use crate::scan::{contains, joined};
use crate::sets::{at, at_is_first, keys_of};
use crate::warnings::{unmatched_clarify, unmatched_exceptions, unused_accepted};

verus! {

// ---------------------------------------------------------------- one list after another

/// Failures come in the order of what was judged.
pub proof fn failures_in_order<V>(a: Seq<(V, JudgementView)>, b: Seq<(V, JudgementView)>, v: V, j: JudgementView)
    ensures
        failures_in(a + b) == failures_in(a) + failures_in(b),
        failures_in(seq![(v, j)]) == match j.failure {
            Some(f) => seq![f],
            None => Seq::empty(),
        },
    decreases b.len(),
{
    if b.len() == 0 {
        assert(a + b =~= a);
        assert(failures_in(a) + failures_in(b) =~= failures_in(a));
    } else {
        failures_in_order(a, b.drop_last(), v, j);
        assert((a + b).drop_last() =~= a + b.drop_last());
        assert(failures_in(a + b) =~= failures_in(a) + failures_in(b));
    }
    reveal_with_fuel(failures_in, 2);
    assert(seq![(v, j)].drop_last() =~= Seq::<(V, JudgementView)>::empty());
    if let Some(f) = j.failure {
        assert(failures_in(seq![(v, j)]) =~= seq![f]);
    }
}

/// What is attributed comes in the order of what was judged.
pub proof fn attributed_in_order<V>(a: Seq<(V, JudgementView)>, b: Seq<(V, JudgementView)>, v: V, j: JudgementView)
    ensures
        attributed(a + b) == attributed(a) + attributed(b),
        attributed(seq![(v, j)]) == match j.chosen {
            Some(c) => seq![(v, c)],
            None => Seq::empty(),
        },
    decreases b.len(),
{
    if b.len() == 0 {
        assert(a + b =~= a);
        assert(attributed(a) + attributed(b) =~= attributed(a));
    } else {
        attributed_in_order(a, b.drop_last(), v, j);
        assert((a + b).drop_last() =~= a + b.drop_last());
        assert(attributed(a + b) =~= attributed(a) + attributed(b));
    }
    reveal_with_fuel(attributed, 2);
    assert(seq![(v, j)].drop_last() =~= Seq::<(V, JudgementView)>::empty());
    if let Some(c) = j.chosen {
        assert(attributed(seq![(v, j)]) =~= seq![(v, c)]);
    }
}

/// What stands under a license comes in the order of what was judged.
pub proof fn licensed_in_order<V>(a: Seq<(V, JudgementView)>, b: Seq<(V, JudgementView)>, lic: Seq<char>)
    ensures
        licensed(a + b, lic) == licensed(a, lic) + licensed(b, lic),
    decreases b.len(),
{
    if b.len() == 0 {
        assert(a + b =~= a);
        assert(licensed(a, lic) + licensed(b, lic) =~= licensed(a, lic));
    } else {
        licensed_in_order(a, b.drop_last(), lic);
        assert((a + b).drop_last() =~= a + b.drop_last());
        assert(licensed(a + b, lic) =~= licensed(a, lic) + licensed(b, lic));
    }
}

/// The failures of packages come in the order of their ids.
pub proof fn package_failures_in_order(
    policy: PolicyView,
    packages: Seq<PackageView>,
    a: Seq<Seq<char>>,
    b: Seq<Seq<char>>,
    id: Seq<char>,
)
    ensures
        package_failures(policy, packages, a + b) == package_failures(policy, packages, a) + package_failures(
            policy,
            packages,
            b,
        ),
        package_failures(policy, packages, seq![id]) == match package_at(packages, id) {
            Some(p) => match package_judgement(policy, p).failure {
                Some(f) => seq![f],
                None => Seq::empty(),
            },
            None => seq![shown_id(id) + ": no package metadata (internal)"@],
        },
    decreases b.len(),
{
    if b.len() == 0 {
        assert(a + b =~= a);
        assert(package_failures(policy, packages, a) + package_failures(policy, packages, b) =~= package_failures(
            policy,
            packages,
            a,
        ));
    } else {
        package_failures_in_order(policy, packages, a, b.drop_last(), id);
        assert((a + b).drop_last() =~= a + b.drop_last());
        assert(package_failures(policy, packages, a + b) =~= package_failures(policy, packages, a) + package_failures(
            policy,
            packages,
            b,
        ));
    }
    reveal_with_fuel(package_failures, 2);
    assert(seq![id].drop_last() =~= Seq::<Seq<char>>::empty());
    let one = package_failures(policy, packages, seq![id]);
    match package_at(packages, id) {
        Some(p) => {
            if let Some(f) = package_judgement(policy, p).failure {
                assert(one =~= seq![f]);
            }
        },
        None => {
            assert(one =~= seq![no_package(shown_id(id))]);
        },
    }
}

/// Packages are judged in the order of their ids.
pub proof fn packages_are_judged_in_order(
    policy: PolicyView,
    packages: Seq<PackageView>,
    a: Seq<Seq<char>>,
    b: Seq<Seq<char>>,
    id: Seq<char>,
)
    ensures
        judged_packages(policy, packages, a + b) == judged_packages(policy, packages, a) + judged_packages(
            policy,
            packages,
            b,
        ),
        judged_packages(policy, packages, seq![id]) == match package_at(packages, id) {
            Some(p) => seq![(p, package_judgement(policy, p))],
            None => Seq::empty(),
        },
    decreases b.len(),
{
    let all = judged_packages(policy, packages, a + b);
    if b.len() == 0 {
        assert(a + b =~= a);
        assert(judged_packages(policy, packages, a) + judged_packages(policy, packages, b) =~= all);
    } else {
        packages_are_judged_in_order(policy, packages, a, b.drop_last(), id);
        assert((a + b).drop_last() =~= a + b.drop_last());
        assert(all =~= judged_packages(policy, packages, a) + judged_packages(policy, packages, b));
    }
    reveal_with_fuel(judged_packages, 2);
    assert(seq![id].drop_last() =~= Seq::<Seq<char>>::empty());
    if let Some(p) = package_at(packages, id) {
        assert(judged_packages(policy, packages, seq![id]) =~= seq![(p, package_judgement(policy, p))]);
    }
}

/// Every extra entry is judged, in order, by the accepted list.
pub proof fn each_extra_is_judged(accepted: Seq<AcceptView>, xs: Seq<ExtraView>)
    ensures
        judged_extras(accepted, xs).len() == xs.len(),
        forall|i: int|
            0 <= i < xs.len() ==> judged_extras(accepted, xs)[i] == (
                #[trigger] xs[i],
                extra_judgement(accepted, xs[i]),
            ),
{
}

// ---------------------------------------------------------------- the resolution

/// The settings of a run are the policy that it judges by and the walk that it takes: what
/// is accepted, clarified and excepted, and the four switches, each where it belongs.
pub proof fn settings_rule_the_run(s: Settings)
    ensures
        policy_of(s).accepted == s.accepted.deep_view(),
        policy_of(s).clarify == s.clarify.deep_view(),
        policy_of(s).exceptions == s.exception.deep_view(),
        walk_of(s).include_dev == s.include_dev,
        walk_of(s).include_build == s.include_build,
        walk_of(s).skip_private == s.skip_private,
        walk_of(s).skip_proc_macros == s.skip_proc_macros,
{
}

/// What a run knows of a package that it attributes is what the policy of its settings makes
/// of it: the expression in use, the licenses chosen, and that it stands under each of them.
pub proof fn run_judges_each_dependency(
    r: Resolved,
    g: GraphView,
    s: Settings,
    roots: Seq<Seq<char>>,
    scoped: bool,
    id: Seq<char>,
    p: PackageView,
)
    requires
        resolves(r, g, s, roots, scoped),
        is_dep(
            g,
            Walk {
                include_dev: s.include_dev,
                include_build: s.include_build,
                skip_private: s.skip_private,
                skip_proc_macros: s.skip_proc_macros,
            },
            roots,
            id,
        ),
        package_at(g.packages, id) == Some(p),
    ensures
        ({
            let policy = PolicyView {
                accepted: s.accepted.deep_view(),
                clarify: s.clarify.deep_view(),
                exceptions: s.exception.deep_view(),
            };
            let j = package_judgement(policy, p);
            &&& r.deps.deep_view().contains(id)
            &&& at(r.effective.deep_view(), id) == j.expression
            &&& at(r.chosen_of.deep_view(), id) == j.chosen
            &&& forall|lic: Seq<char>|
                #![trigger at(r.by_license.deep_view(), lic)]
                j.chosen is Some && j.chosen->0.contains(lic) ==> at(r.by_license.deep_view(), lic) is Some && at(
                    r.by_license.deep_view(),
                    lic,
                )->0.contains(p)
            &&& j.failure matches Some(f) ==> r.failures.deep_view().contains(f)
        }),
{
    let policy = PolicyView {
        accepted: s.accepted.deep_view(),
        clarify: s.clarify.deep_view(),
        exceptions: s.exception.deep_view(),
    };
    let j = package_judgement(policy, p);
    let deps = r.deps.deep_view();
    assert(deps.contains(id));
    let i = choose|i: int| 0 <= i < deps.len() && deps[i] == id;
    each_dependency_is_judged(policy, g.packages, deps, i);
    let js = judged_packages(policy, g.packages, deps);
    assert(at(r.effective.deep_view(), id) == effective_at(js, id));
    assert forall|lic: Seq<char>|
        #![trigger at(r.by_license.deep_view(), lic)]
        j.chosen is Some && j.chosen->0.contains(lic) implies at(r.by_license.deep_view(), lic) is Some && at(
        r.by_license.deep_view(),
        lic,
    )->0.contains(p) by {
        assert(is_under(j, lic));
        assert(licensed(js, lic).contains(p));
        assert(at(r.by_license.deep_view(), lic) == some_of(licensed(js, lic)));
    }
    if let Some(f) = j.failure {
        each_failure_is_reported(policy, g.packages, deps, f);
        assert(package_at(g.packages, deps[i]) == Some(p));
        let a = package_failures(policy, g.packages, deps);
        assert(a.contains(f));
        let m = choose|m: int| 0 <= m < a.len() && a[m] == f;
        assert(r.failures.deep_view()[m] == f);
    }
}

/// Nothing is attributed that is no dependency, and no package stands under a license that
/// was not chosen for it.
pub proof fn run_attributes_dependencies_only(
    r: Resolved,
    g: GraphView,
    s: Settings,
    roots: Seq<Seq<char>>,
    scoped: bool,
    id: Seq<char>,
    lic: Seq<char>,
    p: PackageView,
)
    requires
        resolves(r, g, s, roots, scoped),
    ensures
        r.deps.deep_view().contains(id) <==> is_dep(
            g,
            Walk {
                include_dev: s.include_dev,
                include_build: s.include_build,
                skip_private: s.skip_private,
                skip_proc_macros: s.skip_proc_macros,
            },
            roots,
            id,
        ),
        (at(r.by_license.deep_view(), lic) matches Some(ps) && ps.contains(p)) ==> {
            let j = package_judgement(
                PolicyView {
                    accepted: s.accepted.deep_view(),
                    clarify: s.clarify.deep_view(),
                    exceptions: s.exception.deep_view(),
                },
                p,
            );
            &&& j.chosen matches Some(c) && c.contains(lic)
            &&& exists|d: Seq<char>| #[trigger]
                r.deps.deep_view().contains(d) && package_at(g.packages, d) == Some(p)
        },
{
    let policy = policy_of(s);
    let deps = r.deps.deep_view();
    let js = judged_packages(policy, g.packages, deps);
    assert(at(r.by_license.deep_view(), lic) == some_of(licensed(js, lic)));
    if at(r.by_license.deep_view(), lic) matches Some(ps) && ps.contains(p) {
        under_a_license_stands_what_chose_it(js, lic, p);
        let i = choose|i: int|
            0 <= i < js.len() && (#[trigger] js[i]).0 == p && (js[i].1.chosen matches Some(c) && c.contains(lic));
        assert(js.contains(js[i]));
        each_package_is_judged(policy, g.packages, deps, p, js[i].1);
        let k = choose|k: int| 0 <= k < deps.len() && package_at(g.packages, #[trigger] deps[k]) == Some(p);
        assert(deps.contains(deps[k]));
    }
}

/// Every extra entry is attributed as the accepted licenses make of it.
pub proof fn run_judges_each_extra(
    r: Resolved,
    g: GraphView,
    s: Settings,
    roots: Seq<Seq<char>>,
    scoped: bool,
    i: int,
)
    requires
        resolves(r, g, s, roots, scoped),
        0 <= i < s.extra.deep_view().len(),
    ensures
        ({
            let x = s.extra.deep_view()[i];
            let j = extra_judgement(s.accepted.deep_view(), x);
            &&& j.chosen matches Some(c) ==> r.extra_chosen.deep_view().contains((x, c))
            &&& forall|lic: Seq<char>|
                #![trigger at(r.extra_by_license.deep_view(), lic)]
                j.chosen is Some && j.chosen->0.contains(lic) ==> at(r.extra_by_license.deep_view(), lic) is Some && at(
                    r.extra_by_license.deep_view(),
                    lic,
                )->0.contains(x)
            &&& j.failure matches Some(f) ==> r.failures.deep_view().contains(f)
        }),
{
    let x = s.extra.deep_view()[i];
    let j = extra_judgement(s.accepted.deep_view(), x);
    let xs = judged_extras(s.accepted.deep_view(), s.extra.deep_view());
    each_extra_is_judged(s.accepted.deep_view(), s.extra.deep_view());
    assert(xs[i] == (x, j));
    if let Some(c) = j.chosen {
        attributed_is_what_has_a_choice(xs, x, c);
    }
    assert forall|lic: Seq<char>|
        #![trigger at(r.extra_by_license.deep_view(), lic)]
        j.chosen is Some && j.chosen->0.contains(lic) implies at(r.extra_by_license.deep_view(), lic) is Some && at(
        r.extra_by_license.deep_view(),
        lic,
    )->0.contains(x) by {
        under_a_license_stands_what_chose_it(xs, lic, x);
        assert(at(r.extra_by_license.deep_view(), lic) == some_of(licensed(xs, lic)));
    }
    if let Some(f) = j.failure {
        each_judged_failure_is_listed(xs, f);
        let a = package_failures(policy_of(s), g.packages, deps_of(g, walk_of(s), roots));
        let b = failures_in(xs);
        let m = choose|m: int| 0 <= m < b.len() && b[m] == f;
        assert(r.failures.deep_view() == a + b);
        assert((a + b)[a.len() + m] == f);
    }
}

/// The failures of a run are those of its packages, then those of its extra entries.
pub proof fn failures_of_a_run(r: Resolved, g: GraphView, s: Settings, roots: Seq<Seq<char>>, scoped: bool)
    requires
        resolves(r, g, s, roots, scoped),
    ensures
        r.failures.deep_view() == package_failures(
            PolicyView {
                accepted: s.accepted.deep_view(),
                clarify: s.clarify.deep_view(),
                exceptions: s.exception.deep_view(),
            },
            g.packages,
            r.deps.deep_view(),
        ) + failures_in(judged_extras(s.accepted.deep_view(), s.extra.deep_view())),
        r.extra_chosen.deep_view() == attributed(judged_extras(s.accepted.deep_view(), s.extra.deep_view())),
{
}

/// An exception is in use exactly when some package or extra entry is attributed with it.
pub proof fn exceptions_in_use(
    r: Resolved,
    g: GraphView,
    s: Settings,
    roots: Seq<Seq<char>>,
    scoped: bool,
    e: Seq<char>,
)
    requires
        resolves(r, g, s, roots, scoped),
    ensures
        r.used_exceptions.deep_view().contains(e) <==> {
            let js = judged_packages(policy_of(s), g.packages, r.deps.deep_view());
            let xs = judged_extras(s.accepted.deep_view(), s.extra.deep_view());
            ||| exists|i: int| 0 <= i < js.len() && (#[trigger] js[i]).1.exceptions.contains(e)
            ||| exists|i: int| 0 <= i < xs.len() && (#[trigger] xs[i]).1.exceptions.contains(e)
        },
{
    let js = judged_packages(policy_of(s), g.packages, r.deps.deep_view());
    let xs = judged_extras(s.accepted.deep_view(), s.extra.deep_view());
    assert(has_exception(js, e) <==> exists|i: int| 0 <= i < js.len() && (#[trigger] js[i]).1.exceptions.contains(e));
    assert(has_exception(xs, e) <==> exists|i: int| 0 <= i < xs.len() && (#[trigger] xs[i]).1.exceptions.contains(e));
}

/// Idle entries are warned of in every run, idle licenses only where the accepted list is
/// one's own and the run takes in all members.
pub proof fn warnings_of_a_run(
    s: Settings,
    packages: Seq<PackageView>,
    scoped: bool,
    js: Seq<(PackageView, JudgementView)>,
    xs: Seq<(ExtraView, JudgementView)>,
)
    ensures
        ({
            let idle = unmatched_clarify(packages, s.clarify.deep_view()) + unmatched_exceptions(
                packages,
                s.exception.deep_view(),
            );
            &&& s.accepted_explicit && !scoped ==> resolve_warnings(s, packages, scoped, js, xs) == idle
                + unused_accepted(s.accepted.deep_view(), js, xs)
            &&& !s.accepted_explicit || scoped ==> resolve_warnings(s, packages, scoped, js, xs) == idle
        }),
{
    let idle = unmatched_clarify(packages, s.clarify.deep_view()) + unmatched_exceptions(
        packages,
        s.exception.deep_view(),
    );
    assert(idle + Seq::<Seq<char>>::empty() =~= idle);
}

/// What the documents tell is what the run worked out.
pub proof fn documents_tell_what_was_resolved(
    r: Resolved,
    packages: Seq<PackageView>,
    extras: Seq<(Seq<char>, ExtrasView)>,
)
    ensures
        ({
            let v = resolution_of(r, packages, extras);
            &&& v.deps == r.deps.deep_view()
            &&& v.packages == packages
            &&& v.effective == r.effective.deep_view()
            &&& v.chosen_of == r.chosen_of.deep_view()
            &&& v.by_license == r.by_license.deep_view()
            &&& v.extra_by_license == r.extra_by_license.deep_view()
            &&& v.extra_chosen == r.extra_chosen.deep_view()
            &&& v.used_exceptions == r.used_exceptions.deep_view()
            &&& v.extras == extras
        }),
{
}

/// A text is needed for every license that a package or an extra entry stands under and for
/// every exception in use, in that order, and for nothing else.
pub proof fn texts_are_needed_for(r: Resolved, id: Seq<char>)
    ensures
        text_ids_of(r).contains(id) <==> at(r.by_license.deep_view(), id) is Some || at(
            r.extra_by_license.deep_view(),
            id,
        ) is Some || r.used_exceptions.deep_view().contains(id),
        text_ids_of(r) == Seq::new(r.by_license.deep_view().len(), |i: int| r.by_license.deep_view()[i].0) + Seq::new(
            r.extra_by_license.deep_view().len(),
            |i: int| r.extra_by_license.deep_view()[i].0,
        ) + r.used_exceptions.deep_view(),
{
    let a = keys_of(r.by_license.deep_view());
    let b = keys_of(r.extra_by_license.deep_view());
    let c = r.used_exceptions.deep_view();
    at_is_first(r.by_license.deep_view(), id);
    at_is_first(r.extra_by_license.deep_view(), id);
    let all = text_ids_of(r);
    if a.contains(id) {
        let i = choose|i: int| 0 <= i < a.len() && a[i] == id;
        assert(all[i] == id);
    }
    if b.contains(id) {
        let i = choose|i: int| 0 <= i < b.len() && b[i] == id;
        assert(all[a.len() + i] == id);
    }
    if c.contains(id) {
        let i = choose|i: int| 0 <= i < c.len() && c[i] == id;
        assert(all[a.len() + b.len() + i] == id);
    }
    if all.contains(id) {
        let i = choose|i: int| 0 <= i < all.len() && all[i] == id;
        if i < a.len() {
            assert(a[i] == id);
        } else if i < a.len() + b.len() {
            assert(b[i - a.len()] == id);
        } else {
            assert(c[i - a.len() - b.len()] == id);
        }
    }
}

// ---------------------------------------------------------------- failures and reports

/// The reports that describe what there is are given in spite of failures; the notices and
/// the files are not.
pub proof fn descriptions_pass_in_spite_of_failures(format: Option<Format>)
    ensures
        describes(format) <==> (format matches Some(f) && f != Format::Text),
{
    if let Some(f) = format {
        assert(f == Format::Json || f == Format::Text || f == Format::CycloneDx);
    }
}

/// A failed policy names every failure in full, and so does the warning that stands for it.
pub proof fn failed_policy_names_each_failure(failures: Seq<Seq<char>>, i: int)
    requires
        0 <= i < failures.len(),
    ensures
        contains(policy_failure(failures), failures[i]),
        policy_failure(failures) == "license policy failed:\n  "@ + joined(failures, "\n  "@)
            + "\n  (fix in tribute.toml: `accepted` allows a license everywhere, [[exception]] for one crate, [[clarify]] when the declared expression is wrong)"@,
        as_warning(failures[i]) == "cargo-tribute: warning: "@ + failures[i],
{
    let all = joined(failures, "\n  "@);
    let tail =
        "\n  (fix in tribute.toml: `accepted` allows a license everywhere, [[exception]] for one crate, [[clarify]] when the declared expression is wrong)"@;
    joined_holds_each(failures, "\n  "@, i);
    between("license policy failed:\n  "@, all, tail);
    part_of_part(policy_failure(failures), all, failures[i]);
}

/// Each format gives its own report.
pub proof fn each_format_has_its_report(r: ResolutionView, texts: Seq<(Seq<char>, Seq<char>)>)
    ensures
        report_of(Format::Json, r, texts) == pretty_json(report_json(r)),
        report_of(Format::Text, r, texts) == notices_of(r, texts),
        report_of(Format::CycloneDx, r, texts) == pretty_json(bom_json(r, texts)),
{
}

/// The layout decides what is written: the manifest with the folders, the notices with the
/// flat file, both with both; the manifest names the folders as the settings write them.
pub proof fn layout_decides_what_is_written(s: Settings, r: ResolutionView, texts: Seq<(Seq<char>, Seq<char>)>)
    ensures
        manifest_doc(s, r) is Some <==> s.layout != Layout::Flat,
        flat_doc(s, r, texts) is Some <==> s.layout != Layout::Folders,
        manifest_doc(s, r) matches Some(m) ==> m == manifest_of(r, s.licenses_link@, s.notices_link@),
        flat_doc(s, r, texts) matches Some(m) ==> m == notices_of(r, texts),
{
}

/// The counts of a run are those of the texts, of the notices, of the dependencies and of
/// the extra entries that are attributed.
pub proof fn counts_of_a_run(
    f: Files,
    s: Settings,
    rv: ResolutionView,
    texts: Seq<(Seq<char>, Seq<char>)>,
    notices: Seq<(Seq<char>, Seq<char>)>,
)
    requires
        files_of(f, s, rv, texts, notices),
    ensures
        f.counts.texts == texts.len(),
        f.counts.notices == notices.len(),
        f.counts.crates == rv.deps.len(),
        f.counts.extras == rv.extra_chosen.len(),
        f.texts.deep_view() == texts,
        f.notices.deep_view() == notices,
        f.docs.manifest is Some <==> s.layout != Layout::Flat,
        f.docs.flat is Some <==> s.layout != Layout::Folders,
        f.docs.manifest matches Some(m) ==> m@ == manifest_of(rv, s.licenses_link@, s.notices_link@),
        f.docs.flat matches Some(m) ==> m@ == notices_of(rv, texts),
{
}

} // verus!
