//! Warnings about policy entries that have no effect.

use vstd::prelude::*;
use vstd::string::*;
use crate::config::{accepts_of, borrowed, entry_applies, parse_accepts, policy_matches, unknown_ids, warn_unknown_ids, Accept, AcceptView, Clarify, ClarifyView, Exception, ExceptionView, Extra, ExtraView, LicenseText, LicenseTextView};
use crate::graph::{Package, PackageView};
use crate::policy::{spdx_exception_text, spdx_license_text};
use crate::resolve::{is_referred, refers, Judgement, JudgementView};
use crate::sets::{keys_of, Table};
use crate::text::{cat2, cat3};

verus! {

// ---------------------------------------------------------------- unknown ids

/// The warnings for policy entries that name something outside the SPDX list.
pub open spec fn unknown_in(kind: Seq<char>, accs: Seq<AcceptView>) -> Seq<Seq<char>>
    decreases accs.len(),
{
    if accs.len() == 0 {
        Seq::empty()
    } else {
        let a = accs.last();
        unknown_in(kind, accs.drop_last()) + unknown_ids(
            kind,
            a,
            spdx_license_text(a.license) is Some,
            a.exception matches Some(e) && spdx_exception_text(e) is Some,
        )
    }
}

/// The warnings for what exceptions allow outside the SPDX list.
pub open spec fn unknown_in_exceptions(exceptions: Seq<ExceptionView>) -> Seq<Seq<char>>
    decreases exceptions.len(),
{
    if exceptions.len() == 0 {
        Seq::empty()
    } else {
        unknown_in_exceptions(exceptions.drop_last()) + unknown_in(
            "exception-allowed"@,
            accepts_of(exceptions.last().allow),
        )
    }
}

fn add_unknown(kind: &str, accs: &Vec<Accept>, out: &mut Vec<String>)
    ensures
        final(out).deep_view() == old(out).deep_view() + unknown_in(kind@, accs.deep_view()),
{
    let ghost was = out.deep_view();
    let ghost all = accs.deep_view();
    let mut i: usize = 0;
    assert(was + unknown_in(kind@, all.take(0)) =~= was);
    while i < accs.len()
        invariant
            all == accs.deep_view(),
            i <= accs@.len(),
            out.deep_view() == was + unknown_in(kind@, all.take(i as int)),
        decreases accs.len() - i,
    {
        let ghost upto = all.take(i + 1);
        let ghost o = out.deep_view();
        assert(upto.drop_last() =~= all.take(i as int));
        assert(upto.last() == accs@[i as int].deep_view());
        let mut more = warn_unknown_ids(kind, &accs[i]);
        let ghost m = more.deep_view();
        out.append(&mut more);
        assert(out.deep_view() =~= o + m);
        assert(o + m =~= was + (unknown_in(kind@, all.take(i as int)) + m));
        i += 1;
    }
    assert(all.take(i as int) =~= all);
}

/// The warnings for a typo in a policy entry, which would silently reject a license.
pub fn policy_warnings(accepted: &Vec<Accept>, exceptions: &Vec<Exception>) -> (r: Vec<String>)
    ensures
        r.deep_view() == unknown_in("accepted"@, accepted.deep_view()) + unknown_in_exceptions(
            exceptions.deep_view(),
        ),
{
    let mut out: Vec<String> = Vec::new();
    let ghost first = unknown_in("accepted"@, accepted.deep_view());
    add_unknown("accepted", accepted, &mut out);
    assert(out.deep_view() =~= first);
    let ghost all = exceptions.deep_view();
    let mut i: usize = 0;
    assert(first + unknown_in_exceptions(all.take(0)) =~= first);
    while i < exceptions.len()
        invariant
            all == exceptions.deep_view(),
            i <= exceptions@.len(),
            out.deep_view() == first + unknown_in_exceptions(all.take(i as int)),
        decreases exceptions.len() - i,
    {
        let ghost upto = all.take(i + 1);
        let ghost rest = unknown_in_exceptions(all.take(i as int));
        assert(upto.drop_last() =~= all.take(i as int));
        assert(upto.last() == exceptions@[i as int].deep_view());
        let accs = parse_accepts(&exceptions[i].allow);
        let ghost more = unknown_in("exception-allowed"@, accs.deep_view());
        add_unknown("exception-allowed", &accs, &mut out);
        assert((first + rest) + more =~= first + (rest + more));
        i += 1;
    }
    assert(all.take(i as int) =~= all);
    out
}

// ---------------------------------------------------------------- entries without a match

/// No package of the graph is one that the entry applies to.
pub open spec fn is_unmatched(
    packages: Seq<PackageView>,
    name: Seq<char>,
    req: Option<Seq<char>>,
) -> bool {
    forall|i: int|
        0 <= i < packages.len() ==> !entry_applies(
            name,
            req,
            (#[trigger] packages[i]).name,
            packages[i].version,
        )
}

/// A version requirement behind a name.
pub open spec fn behind_name(req: Option<Seq<char>>) -> Seq<char> {
    match req {
        Some(v) => " "@ + v,
        None => Seq::empty(),
    }
}

/// The warning for an entry that no package matches.
pub open spec fn unmatched_warning(
    kind: Seq<char>,
    name: Seq<char>,
    req: Option<Seq<char>>,
) -> Seq<char> {
    "cargo-tribute: warning: "@ + kind + " for '"@ + name + behind_name(req)
        + "' matched no dependency"@
}

/// The warnings for clarify entries that no package matches.
pub open spec fn unmatched_clarify(
    packages: Seq<PackageView>,
    clarify: Seq<ClarifyView>,
) -> Seq<Seq<char>>
    decreases clarify.len(),
{
    if clarify.len() == 0 {
        Seq::empty()
    } else {
        let c = clarify.last();
        let rest = unmatched_clarify(packages, clarify.drop_last());
        if is_unmatched(packages, c.name, c.version) {
            rest.push(unmatched_warning("clarify"@, c.name, c.version))
        } else {
            rest
        }
    }
}

/// The warnings for exceptions that no package matches.
pub open spec fn unmatched_exceptions(
    packages: Seq<PackageView>,
    exceptions: Seq<ExceptionView>,
) -> Seq<Seq<char>>
    decreases exceptions.len(),
{
    if exceptions.len() == 0 {
        Seq::empty()
    } else {
        let x = exceptions.last();
        let rest = unmatched_exceptions(packages, exceptions.drop_last());
        if is_unmatched(packages, x.name, x.version) {
            rest.push(unmatched_warning("exception"@, x.name, x.version))
        } else {
            rest
        }
    }
}

/// Whether no package of the graph is one that the entry applies to.
pub fn no_match(packages: &Vec<Package>, name: &str, req: Option<&str>) -> (r: bool)
    ensures
        r == is_unmatched(packages.deep_view(), name@, req.deep_view()),
{
    let ghost all = packages.deep_view();
    let mut i: usize = 0;
    while i < packages.len()
        invariant
            all == packages.deep_view(),
            i <= packages@.len(),
            forall|j: int|
                0 <= j < i ==> !entry_applies(
                    name@,
                    req.deep_view(),
                    (#[trigger] all[j]).name,
                    all[j].version,
                ),
        decreases packages.len() - i,
    {
        assert(all[i as int] == packages@[i as int].deep_view());
        if policy_matches(name, req, packages[i].name.as_str(), packages[i].version.as_str()) {
            assert(entry_applies(name@, req.deep_view(), all[i as int].name, all[i as int].version));
            return false;
        }
        i += 1;
    }
    true
}

fn unmatched(kind: &str, name: &str, req: Option<&str>) -> (r: String)
    ensures
        r@ == unmatched_warning(kind@, name@, req.deep_view()),
{
    let mut out = cat3("cargo-tribute: warning: ", kind, " for '");
    out.append(name);
    let ver = match req {
        Some(v) => cat2(" ", v),
        None => String::new(),
    };
    out.append(ver.as_str());
    out.append("' matched no dependency");
    out
}

/// The warnings for clarify entries and exceptions that match no package of the graph, so
/// that a typo in a name or a version is visible. All packages count, not only the
/// attributed ones.
pub fn entry_warnings(
    packages: &Vec<Package>,
    clarify: &Vec<Clarify>,
    exceptions: &Vec<Exception>,
) -> (r: Vec<String>)
    ensures
        r.deep_view() == unmatched_clarify(packages.deep_view(), clarify.deep_view())
            + unmatched_exceptions(packages.deep_view(), exceptions.deep_view()),
{
    let ghost pv = packages.deep_view();
    let ghost cs = clarify.deep_view();
    let mut out: Vec<String> = Vec::new();
    let mut i: usize = 0;
    assert(out.deep_view() =~= unmatched_clarify(pv, cs.take(0)));
    while i < clarify.len()
        invariant
            pv == packages.deep_view(),
            cs == clarify.deep_view(),
            i <= clarify@.len(),
            out.deep_view() == unmatched_clarify(pv, cs.take(i as int)),
        decreases clarify.len() - i,
    {
        let c = &clarify[i];
        let ghost upto = cs.take(i + 1);
        let ghost o = out.deep_view();
        assert(upto.drop_last() =~= cs.take(i as int));
        assert(upto.last() == c.deep_view());
        if no_match(packages, c.name.as_str(), borrowed(&c.version)) {
            let w = unmatched("clarify", c.name.as_str(), borrowed(&c.version));
            let ghost wv = w@;
            out.push(w);
            assert(out.deep_view() =~= o.push(wv));
        }
        i += 1;
    }
    assert(cs.take(i as int) =~= cs);
    let ghost first = out.deep_view();
    let ghost xs = exceptions.deep_view();
    let mut k: usize = 0;
    assert(first + unmatched_exceptions(pv, xs.take(0)) =~= first);
    while k < exceptions.len()
        invariant
            pv == packages.deep_view(),
            xs == exceptions.deep_view(),
            k <= exceptions@.len(),
            out.deep_view() == first + unmatched_exceptions(pv, xs.take(k as int)),
        decreases exceptions.len() - k,
    {
        let x = &exceptions[k];
        let ghost upto = xs.take(k + 1);
        let ghost o = out.deep_view();
        assert(upto.drop_last() =~= xs.take(k as int));
        assert(upto.last() == x.deep_view());
        if no_match(packages, x.name.as_str(), borrowed(&x.version)) {
            let w = unmatched("exception", x.name.as_str(), borrowed(&x.version));
            let ghost wv = w@;
            out.push(w);
            assert(out.deep_view() =~= o.push(wv));
            assert(o.push(wv) =~= first + unmatched_exceptions(pv, xs.take(k as int)).push(wv));
        }
        k += 1;
    }
    assert(xs.take(k as int) =~= xs);
    out
}

// ---------------------------------------------------------------- unused entries

/// The warning for an accepted entry that no expression refers to.
pub open spec fn unused_warning(raw: Seq<char>) -> Seq<char> {
    "cargo-tribute: warning: accepted license '"@ + raw + "' matched no dependency"@
}

/// The warnings for accepted entries that no expression refers to.
pub open spec fn unused_accepted(
    accepted: Seq<AcceptView>,
    js: Seq<(PackageView, JudgementView)>,
    xs: Seq<(ExtraView, JudgementView)>,
) -> Seq<Seq<char>>
    decreases accepted.len(),
{
    if accepted.len() == 0 {
        Seq::empty()
    } else {
        let a = accepted.last();
        let rest = unused_accepted(accepted.drop_last(), js, xs);
        if !refers(js, a) && !refers(xs, a) {
            rest.push(unused_warning(a.raw))
        } else {
            rest
        }
    }
}

/// The warnings for accepted entries that no dependency's expression refers to, so that a
/// stale list is visible.
pub fn unused_warnings<'a>(
    accepted: &Vec<Accept>,
    js: &Vec<(&'a Package, Judgement)>,
    xs: &Vec<(&'a Extra, Judgement)>,
) -> (r: Vec<String>)
    ensures
        r.deep_view() == unused_accepted(accepted.deep_view(), js.deep_view(), xs.deep_view()),
{
    let ghost all = accepted.deep_view();
    let ghost jv = js.deep_view();
    let ghost xv = xs.deep_view();
    let mut out: Vec<String> = Vec::new();
    let mut i: usize = 0;
    assert(out.deep_view() =~= unused_accepted(all.take(0), jv, xv));
    while i < accepted.len()
        invariant
            all == accepted.deep_view(),
            jv == js.deep_view(),
            xv == xs.deep_view(),
            i <= accepted@.len(),
            out.deep_view() == unused_accepted(all.take(i as int), jv, xv),
        decreases accepted.len() - i,
    {
        let a = &accepted[i];
        let ghost upto = all.take(i + 1);
        let ghost o = out.deep_view();
        assert(upto.drop_last() =~= all.take(i as int));
        assert(upto.last() == a.deep_view());
        if !is_referred(js, a) && !is_referred(xs, a) {
            let w = cat3(
                "cargo-tribute: warning: accepted license '",
                a.raw.as_str(),
                "' matched no dependency",
            );
            let ghost wv = w@;
            out.push(w);
            assert(out.deep_view() =~= o.push(wv));
        }
        i += 1;
    }
    assert(all.take(i as int) =~= all);
    out
}

/// The warning for a license text that nothing uses.
pub open spec fn unused_text_warning(id: Seq<char>) -> Seq<char> {
    "cargo-tribute: warning: license-text for '"@ + id + "' matched no dependency"@
}

/// The warnings for license texts that nothing uses.
pub open spec fn unused_texts(list: Seq<LicenseTextView>, used: Seq<Seq<char>>) -> Seq<Seq<char>>
    decreases list.len(),
{
    if list.len() == 0 {
        Seq::empty()
    } else if !used.contains(list.last().id) {
        unused_texts(list.drop_last(), used).push(unused_text_warning(list.last().id))
    } else {
        unused_texts(list.drop_last(), used)
    }
}

/// The warnings for license texts that nothing uses.
pub fn text_warnings(list: &Vec<LicenseText>, texts: &Table<String>) -> (r: Vec<String>)
    ensures
        r.deep_view() == unused_texts(list.deep_view(), keys_of(texts.deep_view())),
{
    let ghost all = list.deep_view();
    let ghost used = keys_of(texts.deep_view());
    let mut out: Vec<String> = Vec::new();
    let mut i: usize = 0;
    assert(out.deep_view() =~= unused_texts(all.take(0), used));
    while i < list.len()
        invariant
            all == list.deep_view(),
            used == keys_of(texts.deep_view()),
            i <= list@.len(),
            out.deep_view() == unused_texts(all.take(i as int), used),
        decreases list.len() - i,
    {
        let ghost upto = all.take(i + 1);
        let ghost o = out.deep_view();
        assert(upto.drop_last() =~= all.take(i as int));
        assert(upto.last() == list@[i as int].deep_view());
        if !texts.has_key(list[i].id.as_str()) {
            let w = cat3(
                "cargo-tribute: warning: license-text for '",
                list[i].id.as_str(),
                "' matched no dependency",
            );
            let ghost wv = w@;
            out.push(w);
            assert(out.deep_view() =~= o.push(wv));
        }
        i += 1;
    }
    assert(all.take(i as int) =~= all);
    out
}

} // verus!
