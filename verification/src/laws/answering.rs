//! What the functions of the library answer, whatever they are asked.

use vstd::prelude::*;
use crate::audit::license_files;
use crate::bundle::{
    each_id_in_use_has_its_text, local_rows, missing_text, unread, LocalText, Shipped,
};
use crate::cli::{
    check_scope, conclude, init_summary, mode, report_format, usage_code, Exit, Failure, Format,
    Mode, Output,
};
use crate::config::{
    accept_of, apply_deny, is_empty_config, load_settings, path_error, policy_matches, settings_of,
    Accept, Clarify, Config, ConfigFile, DenyFile, Exception, ExceptionView, Layout, Settings,
};
use crate::graph::{
    is_followed, package_at, roots_of, wanted_kind, Dep, DepKind, Graph, Package, Walk,
};
use crate::harvest::{
    classify, is_copyright, is_readable, scans, AttributionFile, AttributionView, SourceFile,
};
use crate::laws::harvesting::{
    behind_signs, has_blank, is_heading, is_marker, line_ends_are_normalized,
    named_holder_makes_a_statement, names_tell_files_apart,
};
use crate::laws::judging::{declared_license_counts_otherwise, first_clarify_entry_overrides};
use crate::laws::running::failed_policy_names_each_failure;
use crate::laws::settling::settings_without_a_file;
use crate::laws::texts::between;
use crate::laws::walking::has_wanted_kind;
use crate::laws::writing::{document_is_written_to_its_place, failed_check_names_each};
use crate::plan::{
    check, document_plan, out_of_date, plan_documents, stale_failure, Counts, Step, StepView,
};
use crate::resolve::{judge_package, Judgement, Policy};
use crate::run::{
    gate, policy_failure, prepare, resolve_graph, resolves, text_ids_of, Documents, Next, Resolved,
};
use crate::scan::{contains, starts, trim_by, words_of, Class};
use crate::sets::{at, Table};
use crate::stale::{io, matches_output, Disk};
use crate::text::{alphanumeric, lowercase};
use crate::versions::semver_matches;
use crate::warnings::{
    entry_warnings, policy_warnings, unknown_in, unknown_in_exceptions, unmatched_clarify,
    unmatched_exceptions,
};

verus! {

// ---------------------------------------------------------------- the command line

/// An audit comes before a report, and a report before a check; a run that is told nothing
/// writes.
pub proof fn one_mode_is_taken(format: Option<Format>, audit: bool, check: bool, r: Mode)
    requires
        call_ensures(mode, (format, audit, check), r),
    ensures
        audit ==> r == Mode::Audit,
        !audit ==> (format matches Some(f) ==> r == Mode::Report(f)),
        !audit && format is None && check ==> r == Mode::Check,
        !audit && format is None && !check ==> r == Mode::Write,
{
}

/// A format that is named counts; `--json` is short for its format.
pub proof fn named_format_counts(format: Option<Format>, json: bool, r: Option<Format>)
    requires
        call_ensures(report_format, (format, json), r),
    ensures
        format is Some ==> r == format,
        format is None && json ==> r == Some(Format::Json),
        format is None && !json ==> r is None,
{
}

/// A run over single members is refused exactly when it would check or write.
pub proof fn scoped_run_only_reports(packages: &Vec<String>, format: Option<Format>, audit: bool, r: Result<(), Failure>)
    requires
        call_ensures(check_scope, (packages, format, audit), r),
    ensures
        packages@.len() == 0 || format is Some || audit ==> r is Ok,
        packages@.len() > 0 && format is None && !audit ==> (r matches Err(Failure::Other(m)) && m@
            == "-p is a scoped view; use it with --json/--format/--audit, or drop -p for the full run"@),
{
}

/// A report is printed, quiet or not; a summary only unless quiet. Both end well.
pub proof fn success_is_printed(s: String, quiet: bool, r: Exit, q: Exit)
    requires
        call_ensures(conclude, (Ok::<Output, Failure>(Output::Report(s)), quiet), r),
        call_ensures(conclude, (Ok::<Output, Failure>(Output::Summary(s)), quiet), q),
    ensures
        r.code == 0 && r.out == Some(s) && r.err is None,
        q.code == 0 && q.err is None,
        quiet ==> q.out is None,
        !quiet ==> q.out == Some(s),
{
}

/// A failure is told on the error stream, quiet or not, and ends with the code of its kind.
pub proof fn failure_is_told(f: Failure, quiet: bool, r: Exit)
    requires
        call_ensures(conclude, (Err::<Output, Failure>(f), quiet), r),
    ensures
        r.out is None && r.err is Some,
        f matches Failure::Policy(m) ==> r.code == 1 && r.err->0@ == "cargo-tribute: "@ + m@,
        f matches Failure::Stale(m) ==> r.code == 2 && r.err->0@ == "cargo-tribute: "@ + m@,
        f matches Failure::Other(m) ==> r.code == 3 && r.err->0@ == "cargo-tribute: "@ + m@,
{
}

/// Asking for help or the version ends well; a wrong command line does not.
pub proof fn usage_ends_with(is_error: bool, r: u8)
    requires
        call_ensures(usage_code, (is_error,), r),
    ensures
        is_error ==> r == 3,
        !is_error ==> r == 0,
{
}

/// A configuration that is there is never written over.
pub proof fn configuration_is_kept(path: &str, exists: bool, r: Result<String, Failure>)
    requires
        call_ensures(init_summary, (path, exists), r),
    ensures
        exists ==> (r matches Err(Failure::Other(m)) && m@ == path@ + " already exists"@),
        !exists ==> (r matches Ok(s) && contains(s@, path@)),
{
    between(
        "wrote "@,
        path@,
        "; uncomment what you need (CI: cargo tribute --locked --check)"@,
    );
}

// ---------------------------------------------------------------- settings

/// Without a file the settings are the defaults; a file that is malformed or cannot be read
/// is an error that says so.
pub proof fn settings_are_loaded(root: &str, path: &str, file: ConfigFile, r: Result<Settings, String>)
    requires
        call_ensures(load_settings, (root, path, file), r),
    ensures
        file is Missing ==> (r matches Ok(s) && !s.accepted_explicit && !s.include_dev && !s.include_build
            && !s.skip_private && !s.skip_proc_macros && s.accepted@.len() == 9 && s.layout == Layout::Folders),
        file matches ConfigFile::Malformed(m) ==> (r matches Err(e) && e@ == "tribute.toml: "@ + m@),
        file matches ConfigFile::Unreadable(m) ==> (r matches Err(e) && e@ == path@ + ": "@ + m@),
        file matches ConfigFile::Parsed(c) ==> (r is Ok <==> path_error(c) is None),
        file matches ConfigFile::Parsed(c) ==> (r matches Ok(s) ==> settings_of(s, root@, c)),
        file matches ConfigFile::Parsed(c) ==> (r matches Err(e) ==> path_error(c) == Some(e@)),
{
    if file is Missing {
        let s = r->Ok_0;
        let c = choose|c: Config| #[trigger]
            is_empty_config(c) && settings_of(s, root@, c);
        settings_without_a_file(s, root@, c);
    }
}

/// The policy of a deny.toml takes the place of the default list, and adds its exceptions
/// behind one's own; beside a list of one's own, or where it has none, nothing changes.
pub proof fn deny_file_is_applied(set: &mut Settings, path: &str, file: DenyFile, r: Result<(), String>)
    requires
        call_ensures(apply_deny, (set, path, file), r),
    ensures
        old(set).accepted_explicit ==> r is Err,
        r is Err ==> *final(set) == *old(set),
        file is Failed ==> r is Err,
        file matches DenyFile::Parsed(c) ==> (c.licenses matches Some(l) ==> (l.allow matches Some(allow) ==> {
            &&& !old(set).accepted_explicit ==> r is Ok
            &&& r is Ok ==> {
                &&& final(set).accepted_explicit
                &&& final(set).accepted.deep_view() == Seq::new(allow@.len(), |i: int| accept_of(allow@[i]@))
                &&& l.exceptions matches Some(v) ==> final(set).exception.deep_view() == old(
                    set,
                ).exception.deep_view() + v.deep_view()
                &&& l.exceptions is None ==> final(set).exception.deep_view() == old(set).exception.deep_view()
                &&& final(set).clarify == old(set).clarify
                &&& final(set).extra == old(set).extra
                &&& final(set).layout == old(set).layout
            }
        })),
{
    if let DenyFile::Parsed(c) = file {
        if let Some(l) = c.licenses {
            if let Some(allow) = l.allow {
                if r is Ok {
                    let want = Seq::new(allow@.len(), |i: int| accept_of(allow@[i]@));
                    let got = final(set).accepted.deep_view();
                    assert(allow.deep_view().len() == allow@.len());
                    assert forall|i: int| 0 <= i < want.len() implies got[i] == want[i] by {
                        assert(allow.deep_view()[i] == allow@[i]@);
                    }
                    assert(got =~= want);
                    let was = old(set).exception.deep_view();
                    assert(was + Seq::<ExceptionView>::empty() =~= was);
                }
            }
        }
    }
}

/// The accepted entries are looked up first, then what the exceptions allow.
pub proof fn policy_is_looked_up(accepted: &Vec<Accept>, exceptions: &Vec<Exception>, r: Vec<String>)
    requires
        call_ensures(policy_warnings, (accepted, exceptions), r),
    ensures
        r.deep_view() == unknown_in("accepted"@, accepted.deep_view()) + unknown_in_exceptions(exceptions.deep_view()),
{
}

/// Idle clarifications are warned of first, then idle exceptions.
pub proof fn idle_entries_are_warned_of(
    packages: &Vec<Package>,
    clarify: &Vec<Clarify>,
    exceptions: &Vec<Exception>,
    r: Vec<String>,
)
    requires
        call_ensures(entry_warnings, (packages, clarify, exceptions), r),
    ensures
        r.deep_view() == unmatched_clarify(packages.deep_view(), clarify.deep_view()) + unmatched_exceptions(
            packages.deep_view(),
            exceptions.deep_view(),
        ),
{
}

/// An entry applies to the packages of its name that meet its requirement; one without a
/// requirement to all of its name.
pub proof fn entry_is_matched(name: &str, req: &str, pkg: &str, version: &str, r: bool, q: bool)
    requires
        call_ensures(policy_matches, (name, Some(req), pkg, version), r),
        call_ensures(policy_matches, (name, None::<&str>, pkg, version), q),
    ensures
        r <==> name@ == pkg@ && semver_matches(req@, version@) == Some(true),
        q <==> name@ == pkg@,
{
}

// ---------------------------------------------------------------- files of crates

/// A file called `notice` or `notices`, with or without an extension and in any case, is a
/// NOTICE; another one whose name starts like that of a license file is such; the rest are
/// neither.
pub proof fn names_are_classified(name: &str, stem: Seq<char>, rest: Seq<char>, r: Option<bool>)
    requires
        call_ensures(classify, (name,), r),
        lowercase(name@) == stem + rest,
        !stem.contains('.'),
        rest.len() > 0 ==> rest[0] == '.',
    ensures
        r == if stem == "notice"@ || stem == "notices"@ {
            Some(true)
        } else if starts(stem + rest, "license"@) || starts(stem + rest, "licence"@) || starts(stem + rest, "copying"@)
            || starts(stem + rest, "copyright"@) {
            Some(false)
        } else {
            None
        },
{
    names_tell_files_apart(name@, stem, rest);
}

/// Files of up to a megabyte are read, and nothing but files.
pub proof fn moderate_files_are_read(is_file: bool, len: u64, r: bool)
    requires
        call_ensures(is_readable, (is_file, len), r),
    ensures
        r <==> is_file && len <= 1_000_000,
{
}

/// A line that names a holder right behind its marker is a copyright line, whatever else it
/// goes on with.
pub proof fn line_with_a_holder_is_copyright(line: &str, marker: Seq<char>, body: Seq<char>, k: int, r: bool)
    requires
        call_ensures(is_copyright, (line,), r),
        line@ == marker + body,
        is_marker(marker),
        !has_blank(marker + body),
        words_of(behind_signs(body)).len() > 0,
        0 <= k < words_of(behind_signs(body))[0].len(),
        alphanumeric(words_of(behind_signs(body))[0][k]),
        !is_heading(trim_by(words_of(behind_signs(body))[0], Class::Mark)),
    ensures
        r,
{
    named_holder_makes_a_statement(marker, body, k);
}

/// Of the files that are scanned, an audit looks at those that are no NOTICE, in order.
pub proof fn audit_looks_at_license_files(files: &Vec<SourceFile>, r: Vec<AttributionFile>, f: AttributionView)
    requires
        call_ensures(license_files, (files,), r),
    ensures
        r.deep_view().contains(f) <==> scans(files.deep_view()).contains(f) && !f.is_notice,
        r.deep_view().len() <= scans(files.deep_view()).len(),
{
    filter_keeps_what_passes(scans(files.deep_view()), |g: AttributionView| !g.is_notice, f);
}

proof fn filter_keeps_what_passes(s: Seq<AttributionView>, keep: spec_fn(AttributionView) -> bool, x: AttributionView)
    ensures
        s.filter(keep).contains(x) <==> s.contains(x) && keep(x),
        s.filter(keep).len() <= s.len(),
    decreases s.len(),
{
    reveal(Seq::filter);
    if s.len() > 0 {
        let rest = s.drop_last();
        filter_keeps_what_passes(rest, keep, x);
        let kept = rest.filter(keep);
        assert(s[s.len() - 1] == s.last());
        if rest.contains(x) {
            let i = choose|i: int| 0 <= i < rest.len() && rest[i] == x;
            assert(s[i] == x);
        }
        if s.contains(x) && x != s.last() {
            let i = choose|i: int| 0 <= i < s.len() && s[i] == x;
            assert(rest[i] == x);
        }
        let all = s.filter(keep);
        if kept.contains(x) {
            let i = choose|i: int| 0 <= i < kept.len() && kept[i] == x;
            assert(all[i] == x);
        }
        if all.contains(x) && !kept.contains(x) {
            let i = choose|i: int| 0 <= i < all.len() && all[i] == x;
            if i < kept.len() {
                assert(kept[i] == x);
            }
        }
        if keep(s.last()) {
            assert(all[kept.len() as int] == s.last());
        }
    }
}

// ---------------------------------------------------------------- dependencies and licenses

/// A dependency of which one kind counts is followed, whatever its other kinds, unless it is
/// a proc-macro and those are skipped; no other is.
pub proof fn dependency_is_followed(g: &Graph, w: Walk, d: &Dep, r: bool)
    requires
        call_ensures(is_followed, (g, w, d), r),
    ensures
        r <==> has_wanted_kind(w, d.deep_view()) && !(w.skip_proc_macros && (package_at(
            g.deep_view().packages,
            d.deep_view().pkg,
        ) matches Some(p) && p.proc_macro)),
{
    let v = d.deep_view();
    if r {
        let i = choose|i: int| 0 <= i < v.kinds.len() && wanted_kind(w, #[trigger] v.kinds[i]);
        assert(v.kinds.contains(v.kinds[i]));
    }
    if has_wanted_kind(w, v) {
        let k = if v.kinds.contains(DepKind::Normal) {
            choose|k: int| 0 <= k < v.kinds.len() && v.kinds[k] == DepKind::Normal
        } else if w.include_dev && v.kinds.contains(DepKind::Development) {
            choose|k: int| 0 <= k < v.kinds.len() && v.kinds[k] == DepKind::Development
        } else {
            choose|k: int| 0 <= k < v.kinds.len() && v.kinds[k] == DepKind::Build
        };
        assert(wanted_kind(w, v.kinds[k]));
    }
}

/// The expression that a package is judged by is that of the first clarification which
/// applies to it, whatever the package declares; without one, what it declares.
pub proof fn clarification_rules_the_judgement(policy: &Policy, p: &Package, r: Judgement, i: int)
    requires
        call_ensures(judge_package, (policy, p), r),
        0 <= i <= policy.deep_view().clarify.len(),
        forall|j: int|
            0 <= j < i ==> (#[trigger] policy.deep_view().clarify[j]).name != p.name@ || (
            policy.deep_view().clarify[j].version matches Some(v) && semver_matches(v, p.version@) != Some(true)),
    ensures
        i < policy.deep_view().clarify.len() && ({
            let c = policy.deep_view().clarify[i];
            c.name == p.name@ && (c.version matches Some(v) ==> semver_matches(v, p.version@) == Some(true))
        }) ==> r.expression.deep_view() == Some(policy.deep_view().clarify[i].expression),
        i == policy.deep_view().clarify.len() ==> r.expression.deep_view() == p.license.deep_view(),
{
    let pv = policy.deep_view();
    let v = p.deep_view();
    if i < pv.clarify.len() {
        let c = pv.clarify[i];
        if c.name == v.name && (c.version matches Some(q) ==> semver_matches(q, v.version) == Some(true)) {
            first_clarify_entry_overrides(pv, v, i);
        }
    } else {
        declared_license_counts_otherwise(pv, v);
    }
}

/// A graph is resolved from the members that are named, or from all; without a graph there
/// is nothing to resolve, and a name that no member bears is an error.
pub proof fn graph_is_resolved<'a>(
    graph: Option<&'a Graph>,
    set: &'a Settings,
    names: &Vec<String>,
    r: Result<Resolved<'a>, Failure>,
)
    requires
        call_ensures(resolve_graph, (graph, set, names), r),
    ensures
        graph is None ==> (r matches Err(Failure::Other(m)) && m@ == "no dependency resolution (need a Cargo.toml)"@),
        graph matches Some(g) ==> (roots_of(g.deep_view(), names.deep_view()) matches Ok(roots) ==> (r matches Ok(v)
            && resolves(v, g.deep_view(), *set, roots, names@.len() > 0))),
        graph matches Some(g) ==> (roots_of(g.deep_view(), names.deep_view()) matches Err(e) ==> (r matches Err(
            Failure::Other(m),
        ) && m@ == e)),
{
}

/// Failures stop a run that checks, writes or prints the notices, and are all named; a
/// report that describes what there is is given with a warning for each.
pub proof fn failures_stop_the_run(failures: &Vec<String>, format: Option<Format>, r: Result<Vec<String>, Failure>)
    requires
        call_ensures(gate, (failures, format), r),
    ensures
        failures@.len() == 0 ==> (r matches Ok(w) && w@.len() == 0),
        failures@.len() > 0 && (format is None || format == Some(Format::Text)) ==> (r matches Err(Failure::Policy(m))
            && forall|i: int| 0 <= i < failures@.len() ==> contains(m@, (#[trigger] failures@[i])@)),
        failures@.len() > 0 && (format == Some(Format::Json) || format == Some(Format::CycloneDx)) ==> (r matches Ok(w)
            && w@.len() == failures@.len() && forall|i: int|
            0 <= i < failures@.len() ==> #[trigger] w.deep_view()[i] == "cargo-tribute: warning: "@ + failures@[i]@),
{
    let all = failures.deep_view();
    assert(all.len() == failures@.len());
    if let Err(f) = r {
        assert forall|i: int| 0 <= i < failures@.len() implies contains(
            policy_failure(all),
            (#[trigger] failures@[i])@,
        ) by {
            failed_policy_names_each_failure(all, i);
            assert(all[i] == failures@[i]@);
        }
    }
    if let Ok(w) = r {
        assert(w.deep_view().len() == w@.len());
        assert forall|i: int| 0 <= i < failures@.len() implies #[trigger] w.deep_view()[i]
            == "cargo-tribute: warning: "@ + failures@[i]@ by {
            assert(all[i] == failures@[i]@);
        }
    }
}

// ---------------------------------------------------------------- files on disk

/// A check passes exactly when nothing is out of date, and otherwise names all that is.
pub proof fn check_passes_when_nothing_is_out_of_date(
    set: &Settings,
    texts: &Table<String>,
    notices: &Table<String>,
    docs: &Documents,
    counts: Counts,
    disk: &Disk,
    r: Result<String, Failure>,
)
    requires
        call_ensures(check, (set, texts, notices, docs, counts, disk), r),
    ensures
        ({
            let stale = out_of_date(
                *set,
                texts.deep_view(),
                notices.deep_view(),
                docs.manifest.deep_view(),
                docs.flat.deep_view(),
                disk.deep_view(),
            );
            &&& r is Ok <==> stale.len() == 0
            &&& stale.len() > 0 ==> (r matches Err(Failure::Stale(m)) && forall|i: int|
                0 <= i < stale.len() ==> contains(m@, #[trigger] stale[i]))
        }),
{
    let stale = out_of_date(
        *set,
        texts.deep_view(),
        notices.deep_view(),
        docs.manifest.deep_view(),
        docs.flat.deep_view(),
        disk.deep_view(),
    );
    assert forall|i: int| 0 <= i < stale.len() implies contains(
        stale_failure(stale),
        #[trigger] stale[i],
    ) by {
        failed_check_names_each(stale, i);
    }
}

/// The manifest and the flat file are written, each to its place, as far as there are any.
pub proof fn documents_are_written(set: &Settings, docs: &Documents, r: Vec<Step>)
    requires
        call_ensures(plan_documents, (set, docs), r),
    ensures
        docs.manifest matches Some(m) ==> r.deep_view().contains(StepView::Write(set.manifest@, m@)),
        docs.flat matches Some(m) ==> r.deep_view().contains(StepView::Write(set.flat_file@, m@)),
        docs.manifest is None && docs.flat is None ==> r.deep_view().len() == 0,
{
    let a = document_plan(set.manifest@, docs.manifest.deep_view());
    let b = document_plan(set.flat_file@, docs.flat.deep_view());
    document_is_written_to_its_place(set.manifest@, docs.manifest.deep_view());
    document_is_written_to_its_place(set.flat_file@, docs.flat.deep_view());
    if docs.manifest is Some {
        assert(r.deep_view()[1] == a[1]);
    }
    if docs.flat is Some {
        assert(r.deep_view()[a.len() as int + 1] == b[1]);
    }
}

/// What goes wrong with a file is told with its path; what goes well is handed on.
pub proof fn trouble_is_told_with_its_path<T>(path: &str, v: Result<T, String>, r: Result<T, String>)
    requires
        call_ensures(io::<T>, (path, v), r),
    ensures
        v matches Ok(t) ==> r == Ok::<T, String>(t),
        v matches Err(e) ==> (r matches Err(m) && m@ == path@ + ": "@ + e@),
{
}

/// A text without carriage returns matches itself, and a missing one nothing.
pub proof fn output_matches_itself(disk: &str, want: &str, r: bool, q: bool)
    requires
        call_ensures(matches_output, (Some(disk), want), r),
        call_ensures(matches_output, (None::<&str>, want), q),
        !want@.contains('\r'),
    ensures
        disk@ == want@ ==> r,
        !q,
{
    line_ends_are_normalized(want@, want@);
}

/// A run goes on to its report or its files once every local text has been read and every
/// id in use has a text; the first that lacks one ends it, and says so. The texts are those
/// of the ids in use.
pub proof fn run_needs_every_text<'b>(
    set: &Settings,
    format: Option<Format>,
    resolved: &'b Resolved<'b>,
    packages: &'b Vec<Package>,
    shipped: &Vec<Shipped<'b>>,
    local: &Vec<LocalText>,
    warnings: &mut Vec<String>,
    r: Result<Next, Failure>,
)
    requires
        call_ensures(prepare, (set, format, resolved, packages, shipped, local, warnings), r),
    ensures
        unread(local@) matches Some(e) ==> (r matches Err(Failure::Other(m)) && m@ == e),
        unread(local@) is None ==> (missing_text(local_rows(local@), text_ids_of(*resolved)) matches Some(e) ==> (
        r matches Err(Failure::Other(m)) && m@ == e)),
        unread(local@) is None && missing_text(local_rows(local@), text_ids_of(*resolved)) is None ==> r is Ok,
        r matches Ok(Next::Done(out)) ==> format is Some && out is Report,
        r matches Ok(Next::Files(f)) ==> format is None && forall|id: Seq<char>| #[trigger]
            at(f.texts.deep_view(), id) is Some <==> text_ids_of(*resolved).contains(id),
        r is Err ==> final(warnings).deep_view() == old(warnings).deep_view(),
{
    if let Ok(Next::Files(f)) = r {
        let custom = local_rows(local@);
        let ids = text_ids_of(*resolved);
        assert forall|id: Seq<char>| #[trigger] at(f.texts.deep_view(), id) is Some <==> ids.contains(id) by {
            each_id_in_use_has_its_text(custom, ids, id);
        }
    }
}

} // verus!
