//! The license of each dependency and extra entry, judged by the policy.

use vstd::prelude::*;
use vstd::string::*;
use crate::config::{accepts_of, allowed_by, borrowed, clarified, clarify_expr, entry_applies, parse_accepts, policy_matches, Accept, AcceptView, Clarify, ClarifyView, Exception, ExceptionView, Extra, ExtraView};
use crate::expression::{license_name, name_of, parsed, spdx_parse, Expression, Node, NodeView};
use crate::graph::{find_package, package_at, Package, PackageView};
use crate::manifest::or_none;
use crate::policy::{choose_licenses, chosen, exceptions_for, exceptions_in};
use crate::sets::{add_all, at, in_order, sorted, sorted_is_in_order, Table};
use crate::text::{cat2, cat3, cat5, owned, precedes_irreflexive};

verus! {

// ---------------------------------------------------------------- one expression

/// What the policy makes of an expression.
pub struct Judgement {
    /// the expression that is used
    pub expression: Option<String>,
    /// why the policy fails
    pub failure: Option<String>,
    /// the licenses to attribute under, in ascending order
    pub chosen: Option<Vec<String>>,
    /// the exceptions on those licenses
    pub exceptions: Vec<String>,
    /// every license of the expression, with its exception
    pub terms: Vec<(String, Option<String>)>,
}

/// What a `Judgement` holds.
pub struct JudgementView {
    pub expression: Option<Seq<char>>,
    pub failure: Option<Seq<char>>,
    pub chosen: Option<Seq<Seq<char>>>,
    pub exceptions: Seq<Seq<char>>,
    pub terms: Seq<(Seq<char>, Option<Seq<char>>)>,
}

impl DeepView for Judgement {
    type V = JudgementView;

    open spec fn deep_view(&self) -> JudgementView {
        JudgementView {
            expression: self.expression.deep_view(),
            failure: self.failure.deep_view(),
            chosen: self.chosen.deep_view(),
            exceptions: self.exceptions.deep_view(),
            terms: self.terms.deep_view(),
        }
    }
}

/// The licenses of an expression, each with its exception.
pub open spec fn terms_of(nodes: Seq<NodeView>) -> Seq<(Seq<char>, Option<Seq<char>>)>
    decreases nodes.len(),
{
    if nodes.len() == 0 {
        Seq::empty()
    } else {
        match nodes.last() {
            NodeView::Req(t) => terms_of(nodes.drop_last()).push((name_of(t), t.exception)),
            _ => terms_of(nodes.drop_last()),
        }
    }
}

/// The licenses of an expression, each with its exception.
pub fn term_list(expr: &Expression) -> (r: Vec<(String, Option<String>)>)
    ensures
        r.deep_view() == terms_of(expr.deep_view()),
{
    let ghost nodes = expr.deep_view();
    let mut out: Vec<(String, Option<String>)> = Vec::new();
    let mut i: usize = 0;
    assert(out.deep_view() =~= terms_of(nodes.take(0)));
    while i < expr.nodes.len()
        invariant
            nodes == expr.deep_view(),
            i <= expr.nodes@.len(),
            out.deep_view() == terms_of(nodes.take(i as int)),
        decreases expr.nodes.len() - i,
    {
        let ghost upto = nodes.take(i + 1);
        let ghost o = out.deep_view();
        assert(upto.drop_last() =~= nodes.take(i as int));
        assert(upto.last() == expr.nodes@[i as int].deep_view());
        if let Node::Req(t) = &expr.nodes[i] {
            let pair = (license_name(t), t.exception.clone());
            let ghost v = pair.deep_view();
            out.push(pair);
            assert(out.deep_view() =~= o.push(v));
        }
        i += 1;
    }
    assert(nodes.take(i as int) =~= nodes);
    out
}

/// The failure of something without a license.
pub open spec fn no_license(label: Seq<char>) -> Seq<char> {
    label + ": no license field (add a [[clarify]] entry to tribute.toml)"@
}

/// The failure of an expression that cannot be parsed.
pub open spec fn unparsable(label: Seq<char>, expr: Seq<char>, error: Seq<char>) -> Seq<char> {
    label + ": unparsable SPDX '"@ + expr + "' ("@ + error + ")"@
}

/// The failure of an expression that the accepted set does not cover.
pub open spec fn not_accepted(label: Seq<char>, expr: Seq<char>) -> Seq<char> {
    label + ": license '"@ + expr + "' not in the accepted set"@
}

/// What the policy makes of an expression, given what it parses to.
pub open spec fn judged_as(
    label: Seq<char>,
    expr: Seq<char>,
    parsed: Result<Seq<NodeView>, Seq<char>>,
    acc: Seq<AcceptView>,
) -> JudgementView {
    match parsed {
        Err(m) => JudgementView {
            expression: Some(expr),
            failure: Some(unparsable(label, expr, m)),
            chosen: None,
            exceptions: Seq::empty(),
            terms: Seq::empty(),
        },
        Ok(nodes) => match chosen(nodes, acc) {
            None => JudgementView {
                expression: Some(expr),
                failure: Some(not_accepted(label, expr)),
                chosen: None,
                exceptions: Seq::empty(),
                terms: terms_of(nodes),
            },
            Some(set) => JudgementView {
                expression: Some(expr),
                failure: None,
                chosen: Some(in_order(set)),
                exceptions: exceptions_in(nodes, in_order(set)),
                terms: terms_of(nodes),
            },
        },
    }
}

/// What the policy makes of an optional expression.
pub open spec fn judged(
    label: Seq<char>,
    expr: Option<Seq<char>>,
    acc: Seq<AcceptView>,
) -> JudgementView {
    match expr {
        None => JudgementView {
            expression: None,
            failure: Some(no_license(label)),
            chosen: None,
            exceptions: Seq::empty(),
            terms: Seq::empty(),
        },
        Some(e) => judged_as(label, e, spdx_parse(e), acc),
    }
}

/// What the policy makes of an expression, given what it parses to.
pub fn judge_parsed(
    label: &str,
    expr: &str,
    result: Result<Expression, String>,
    accepted: &[Accept],
) -> (r: Judgement)
    ensures
        r.deep_view() == judged_as(label@, expr@, parsed(result), accepted.deep_view()),
        r.chosen matches Some(c) ==> {
            &&& sorted(c.deep_view())
            &&& parsed(result) matches Ok(nodes)
            &&& chosen(nodes, accepted.deep_view()) == Some(c.deep_view().to_set())
        },
{
    let none: Vec<String> = Vec::new();
    assert(none.deep_view() =~= Seq::<Seq<char>>::empty());
    match result {
        Err(m) => {
            let no_terms: Vec<(String, Option<String>)> = Vec::new();
            assert(no_terms.deep_view() =~= Seq::<(Seq<char>, Option<Seq<char>>)>::empty());
            let mut failure = cat5(label, ": unparsable SPDX '", expr, "' (", m.as_str());
            failure.append(")");
            Judgement {
                expression: Some(owned(expr)),
                failure: Some(failure),
                chosen: None,
                exceptions: none,
                terms: no_terms,
            }
        },
        Ok(e) => {
            let terms = term_list(&e);
            match choose_licenses(&e, accepted) {
                Some(c) => {
                    proof {
                        sorted_is_in_order(c.deep_view());
                    }
                    let exceptions = exceptions_for(&e, &c);
                    Judgement {
                        expression: Some(owned(expr)),
                        failure: None,
                        chosen: Some(c),
                        exceptions,
                        terms,
                    }
                },
                None => {
                    let mut failure = cat3(label, ": license '", expr);
                    failure.append("' not in the accepted set");
                    Judgement {
                        expression: Some(owned(expr)),
                        failure: Some(failure),
                        chosen: None,
                        exceptions: none,
                        terms,
                    }
                },
            }
        },
    }
}

/// What the policy makes of an optional expression.
pub fn judge(label: &str, expr: Option<&str>, accepted: &[Accept]) -> (r: Judgement)
    ensures
        r.deep_view() == judged(label@, expr.deep_view(), accepted.deep_view()),
        r.chosen matches Some(c) ==> {
            &&& sorted(c.deep_view())
            &&& expr matches Some(e)
            &&& spdx_parse(e@) matches Ok(nodes)
            &&& chosen(nodes, accepted.deep_view()) == Some(c.deep_view().to_set())
        },
{
    match expr {
        None => {
            let none: Vec<String> = Vec::new();
            assert(none.deep_view() =~= Seq::<Seq<char>>::empty());
            let no_terms: Vec<(String, Option<String>)> = Vec::new();
            assert(no_terms.deep_view() =~= Seq::<(Seq<char>, Option<Seq<char>>)>::empty());
            Judgement {
                expression: None,
                failure: Some(
                    cat2(label, ": no license field (add a [[clarify]] entry to tribute.toml)"),
                ),
                chosen: None,
                exceptions: none,
                terms: no_terms,
            }
        },
        Some(e) => judge_parsed(label, e, Expression::parse(e), accepted),
    }
}

// ---------------------------------------------------------------- packages

/// What exceptions allow for one package beyond the accepted list, in order.
pub open spec fn allowed_beyond(
    exceptions: Seq<ExceptionView>,
    name: Seq<char>,
    version: Seq<char>,
) -> Seq<AcceptView>
    decreases exceptions.len(),
{
    if exceptions.len() == 0 {
        Seq::empty()
    } else {
        let x = exceptions.last();
        let rest = allowed_beyond(exceptions.drop_last(), name, version);
        if entry_applies(x.name, x.version, name, version) {
            rest + accepts_of(x.allow)
        } else {
            rest
        }
    }
}

/// What is accepted for one package: the accepted list, and behind it what exceptions
/// allow, so that a license which is accepted everywhere still wins an `OR`.
pub open spec fn accepted_for(
    accepted: Seq<AcceptView>,
    exceptions: Seq<ExceptionView>,
    p: PackageView,
) -> Seq<AcceptView> {
    accepted + allowed_beyond(exceptions, p.name, p.version)
}

/// The expression that is used for a package: a clarified one, or else the declared one.
pub open spec fn expression_for(clarify: Seq<ClarifyView>, p: PackageView) -> Option<Seq<char>> {
    match clarified(clarify, p.name, p.version) {
        Some(e) => Some(e),
        None => p.license,
    }
}

/// The license policy: what is accepted, and the entries for single crates.
pub struct PolicyView {
    pub accepted: Seq<AcceptView>,
    pub clarify: Seq<ClarifyView>,
    pub exceptions: Seq<ExceptionView>,
}

/// What the policy makes of a package.
pub open spec fn package_judgement(policy: PolicyView, p: PackageView) -> JudgementView {
    judged(
        p.name + " "@ + p.version,
        expression_for(policy.clarify, p),
        accepted_for(policy.accepted, policy.exceptions, p),
    )
}

/// The license policy.
pub struct Policy<'a> {
    pub accepted: &'a Vec<Accept>,
    pub clarify: &'a Vec<Clarify>,
    pub exceptions: &'a Vec<Exception>,
}

impl<'a> DeepView for Policy<'a> {
    type V = PolicyView;

    open spec fn deep_view(&self) -> PolicyView {
        PolicyView {
            accepted: self.accepted.deep_view(),
            clarify: self.clarify.deep_view(),
            exceptions: self.exceptions.deep_view(),
        }
    }
}

/// What is accepted for one package.
pub fn accepted_list(
    accepted: &Vec<Accept>,
    exceptions: &Vec<Exception>,
    p: &Package,
) -> (r: Vec<Accept>)
    ensures
        r.deep_view() == accepted_for(
            accepted.deep_view(),
            exceptions.deep_view(),
            p.deep_view(),
        ),
{
    let mut out: Vec<Accept> = Vec::new();
    let ghost acc = accepted.deep_view();
    let ghost pv = p.deep_view();
    let mut k: usize = 0;
    assert(out.deep_view() =~= acc.take(0));
    while k < accepted.len()
        invariant
            acc == accepted.deep_view(),
            k <= accepted@.len(),
            out.deep_view() == acc.take(k as int),
        decreases accepted.len() - k,
    {
        let ghost o = out.deep_view();
        let a = accepted[k].clone();
        let ghost v = a.deep_view();
        out.push(a);
        assert(out.deep_view() =~= o.push(v));
        assert(acc.take(k + 1) =~= acc.take(k as int).push(acc[k as int]));
        k += 1;
    }
    assert(acc.take(k as int) =~= acc);
    let ghost all = exceptions.deep_view();
    let mut i: usize = 0;
    assert(acc + allowed_beyond(all.take(0), pv.name, pv.version) =~= acc);
    while i < exceptions.len()
        invariant
            all == exceptions.deep_view(),
            pv == p.deep_view(),
            i <= exceptions@.len(),
            out.deep_view() == acc + allowed_beyond(all.take(i as int), pv.name, pv.version),
        decreases exceptions.len() - i,
    {
        let x = &exceptions[i];
        let ghost upto = all.take(i + 1);
        let ghost o = out.deep_view();
        assert(upto.drop_last() =~= all.take(i as int));
        assert(upto.last() == x.deep_view());
        if policy_matches(
            x.name.as_str(),
            borrowed(&x.version),
            p.name.as_str(),
            p.version.as_str(),
        ) {
            let mut more = parse_accepts(&x.allow);
            let ghost m = more.deep_view();
            out.append(&mut more);
            assert(out.deep_view() =~= o + m);
            assert(o + m =~= acc + (allowed_beyond(all.take(i as int), pv.name, pv.version) + m));
        }
        i += 1;
    }
    assert(all.take(i as int) =~= all);
    out
}

/// What the policy makes of a package.
pub fn judge_package(policy: &Policy, p: &Package) -> (r: Judgement)
    ensures
        r.deep_view() == package_judgement(policy.deep_view(), p.deep_view()),
        r.chosen matches Some(c) ==> sorted(c.deep_view()),
{
    let label = cat3(p.name.as_str(), " ", p.version.as_str());
    let expr = match clarify_expr(policy.clarify, p.name.as_str(), p.version.as_str()) {
        Some(e) => Some(e),
        None => borrowed(&p.license),
    };
    let accepted = accepted_list(policy.accepted, policy.exceptions, p);
    judge(label.as_str(), expr, accepted.as_slice())
}

/// How `cargo_metadata::PackageId` shows an id for debugging.
pub uninterp spec fn shown_id(id: Seq<char>) -> Seq<char>;

/// Formats a `cargo_metadata::PackageId` with its derived `Debug`; the text depends on the
/// id alone.
#[verifier::external_body]
fn show_id(id: &str) -> (r: String)
    ensures
        r@ == shown_id(id@),
{
    format!("{:?}", cargo_metadata::PackageId { repr: id.to_string() })
}

/// The failure of an id without a package.
pub open spec fn no_package(shown: Seq<char>) -> Seq<char> {
    shown + ": no package metadata (internal)"@
}

/// Packages or extra entries, each with what the policy makes of it.
pub open spec fn judged_packages(
    policy: PolicyView,
    packages: Seq<PackageView>,
    ids: Seq<Seq<char>>,
) -> Seq<(PackageView, JudgementView)>
    decreases ids.len(),
{
    if ids.len() == 0 {
        Seq::empty()
    } else {
        let rest = judged_packages(policy, packages, ids.drop_last());
        match package_at(packages, ids.last()) {
            Some(p) => rest.push((p, package_judgement(policy, p))),
            None => rest,
        }
    }
}

/// The failures of packages: an id without metadata, or what the policy objects to.
pub open spec fn package_failures(
    policy: PolicyView,
    packages: Seq<PackageView>,
    ids: Seq<Seq<char>>,
) -> Seq<Seq<char>>
    decreases ids.len(),
{
    if ids.len() == 0 {
        Seq::empty()
    } else {
        let rest = package_failures(policy, packages, ids.drop_last());
        match package_at(packages, ids.last()) {
            Some(p) => match package_judgement(policy, p).failure {
                Some(f) => rest.push(f),
                None => rest,
            },
            None => rest.push(no_package(shown_id(ids.last()))),
        }
    }
}

/// The lists of licenses stand in ascending order.
pub open spec fn all_sorted<V>(js: Seq<(V, JudgementView)>) -> bool {
    forall|i: int|
        0 <= i < js.len() ==> ((#[trigger] js[i]).1.chosen matches Some(c) ==> sorted(c))
}

/// Judges the packages of a list of ids.
pub fn judge_packages<'a>(
    policy: &Policy,
    packages: &'a Vec<Package>,
    ids: &Vec<String>,
) -> (r: (Vec<(&'a Package, Judgement)>, Vec<String>))
    ensures
        r.0.deep_view() == judged_packages(
            policy.deep_view(),
            packages.deep_view(),
            ids.deep_view(),
        ),
        r.1.deep_view() == package_failures(
            policy.deep_view(),
            packages.deep_view(),
            ids.deep_view(),
        ),
        all_sorted(r.0.deep_view()),
{
    let ghost po = policy.deep_view();
    let ghost pv = packages.deep_view();
    let ghost all = ids.deep_view();
    let mut js: Vec<(&'a Package, Judgement)> = Vec::new();
    let mut failures: Vec<String> = Vec::new();
    let mut i: usize = 0;
    assert(js.deep_view() =~= judged_packages(po, pv, all.take(0)));
    assert(failures.deep_view() =~= package_failures(po, pv, all.take(0)));
    while i < ids.len()
        invariant
            po == policy.deep_view(),
            pv == packages.deep_view(),
            all == ids.deep_view(),
            i <= ids@.len(),
            js.deep_view() == judged_packages(po, pv, all.take(i as int)),
            failures.deep_view() == package_failures(po, pv, all.take(i as int)),
            all_sorted(js.deep_view()),
        decreases ids.len() - i,
    {
        let ghost upto = all.take(i + 1);
        let ghost o = js.deep_view();
        let ghost f = failures.deep_view();
        assert(upto.drop_last() =~= all.take(i as int));
        assert(upto.last() == ids@[i as int]@);
        match find_package(packages, ids[i].as_str()) {
            Some(k) => {
                let p = &packages[k];
                let j = judge_package(policy, p);
                let ghost jv = j.deep_view();
                match &j.failure {
                    Some(m) => {
                        failures.push(owned(m.as_str()));
                        assert(failures.deep_view() =~= f.push(m@));
                    },
                    None => {},
                }
                js.push((p, j));
                assert(js.deep_view() =~= o.push((p.deep_view(), jv)));
            },
            None => {
                let shown = show_id(ids[i].as_str());
                let m = cat2(shown.as_str(), ": no package metadata (internal)");
                let ghost mv = m@;
                failures.push(m);
                assert(failures.deep_view() =~= f.push(mv));
            },
        }
        i += 1;
    }
    assert(all.take(i as int) =~= all);
    (js, failures)
}

// ---------------------------------------------------------------- extra entries

/// What the policy makes of an extra entry.
pub open spec fn extra_judgement(accepted: Seq<AcceptView>, x: ExtraView) -> JudgementView {
    judged("[[extra]] "@ + x.name, Some(x.expression), accepted)
}

/// Extra entries, each with what the policy makes of it.
pub open spec fn judged_extras(accepted: Seq<AcceptView>, xs: Seq<ExtraView>) -> Seq<
    (ExtraView, JudgementView),
> {
    xs.map_values(|x: ExtraView| (x, extra_judgement(accepted, x)))
}

/// The failures among things that were judged, in order.
pub open spec fn failures_in<V>(js: Seq<(V, JudgementView)>) -> Seq<Seq<char>>
    decreases js.len(),
{
    if js.len() == 0 {
        Seq::empty()
    } else {
        match js.last().1.failure {
            Some(f) => failures_in(js.drop_last()).push(f),
            None => failures_in(js.drop_last()),
        }
    }
}

/// Judges extra entries.
pub fn judge_extras<'a>(accepted: &Vec<Accept>, xs: &'a Vec<Extra>) -> (r: (
    Vec<(&'a Extra, Judgement)>,
    Vec<String>,
))
    ensures
        r.0.deep_view() == judged_extras(accepted.deep_view(), xs.deep_view()),
        r.1.deep_view() == failures_in(judged_extras(accepted.deep_view(), xs.deep_view())),
        all_sorted(r.0.deep_view()),
{
    let ghost acc = accepted.deep_view();
    let ghost all = xs.deep_view();
    let mut js: Vec<(&'a Extra, Judgement)> = Vec::new();
    let mut failures: Vec<String> = Vec::new();
    let mut i: usize = 0;
    assert(js.deep_view() =~= judged_extras(acc, all.take(0)));
    assert(failures.deep_view() =~= failures_in(judged_extras(acc, all.take(0))));
    while i < xs.len()
        invariant
            acc == accepted.deep_view(),
            all == xs.deep_view(),
            i <= xs@.len(),
            js.deep_view() == judged_extras(acc, all.take(i as int)),
            failures.deep_view() == failures_in(js.deep_view()),
            all_sorted(js.deep_view()),
        decreases xs.len() - i,
    {
        let x = &xs[i];
        let ghost o = js.deep_view();
        let ghost f = failures.deep_view();
        let label = cat2("[[extra]] ", x.name.as_str());
        let j = judge(label.as_str(), Some(x.expression.as_str()), accepted.as_slice());
        let ghost jv = j.deep_view();
        assert(jv == extra_judgement(acc, all[i as int]));
        match &j.failure {
            Some(m) => {
                failures.push(owned(m.as_str()));
                assert(failures.deep_view() =~= f.push(m@));
            },
            None => {},
        }
        js.push((x, j));
        proof {
            assert(js.deep_view() =~= o.push((x.deep_view(), jv)));
            assert(js.deep_view().drop_last() =~= o);
            assert(judged_extras(acc, all.take(i + 1)) =~= judged_extras(
                acc,
                all.take(i as int),
            ).push((all[i as int], extra_judgement(acc, all[i as int]))));
        }
        i += 1;
    }
    assert(all.take(i as int) =~= all);
    (js, failures)
}

// ---------------------------------------------------------------- tables

/// The expression that is used for the package with an id.
pub open spec fn effective_at(js: Seq<(PackageView, JudgementView)>, id: Seq<char>) -> Option<
    Seq<char>,
>
    decreases js.len(),
{
    if js.len() == 0 {
        None
    } else if js.last().0.id == id && js.last().1.expression is Some {
        js.last().1.expression
    } else {
        effective_at(js.drop_last(), id)
    }
}

/// The licenses that the package with an id is attributed under.
pub open spec fn chosen_at(js: Seq<(PackageView, JudgementView)>, id: Seq<char>) -> Option<
    Seq<Seq<char>>,
>
    decreases js.len(),
{
    if js.len() == 0 {
        None
    } else if js.last().0.id == id && js.last().1.chosen is Some {
        js.last().1.chosen
    } else {
        chosen_at(js.drop_last(), id)
    }
}

/// It is attributed under a license.
pub open spec fn is_under(j: JudgementView, lic: Seq<char>) -> bool {
    j.chosen matches Some(c) && c.contains(lic)
}

/// What is attributed under a license, in order.
pub open spec fn licensed<V>(js: Seq<(V, JudgementView)>, lic: Seq<char>) -> Seq<V>
    decreases js.len(),
{
    if js.len() == 0 {
        Seq::empty()
    } else if is_under(js.last().1, lic) {
        licensed(js.drop_last(), lic).push(js.last().0)
    } else {
        licensed(js.drop_last(), lic)
    }
}

/// A list, none if it is empty.
pub open spec fn some_of<V>(s: Seq<V>) -> Option<Seq<V>> {
    if s.len() == 0 {
        None
    } else {
        Some(s)
    }
}

/// What is attributed at all, each with its licenses.
pub open spec fn attributed<V>(js: Seq<(V, JudgementView)>) -> Seq<(V, Seq<Seq<char>>)>
    decreases js.len(),
{
    if js.len() == 0 {
        Seq::empty()
    } else {
        match js.last().1.chosen {
            Some(c) => attributed(js.drop_last()).push((js.last().0, c)),
            None => attributed(js.drop_last()),
        }
    }
}

/// Something that was judged is attributed with an exception.
pub open spec fn has_exception<V>(js: Seq<(V, JudgementView)>, e: Seq<char>) -> bool {
    exists|i: int| 0 <= i < js.len() && (#[trigger] js[i]).1.exceptions.contains(e)
}

/// Some expression that was judged has a license, with its exception, that an accepted
/// entry allows.
pub open spec fn refers<V>(js: Seq<(V, JudgementView)>, a: AcceptView) -> bool {
    exists|i: int, k: int|
        0 <= i < js.len() && 0 <= k < js[i].1.terms.len() && allowed_by(
            a,
            (#[trigger] js[i].1.terms[k]).0,
            js[i].1.terms[k].1,
        )
}

/// The expressions that are used, by package id.
pub fn effective_table<'a>(js: &Vec<(&'a Package, Judgement)>) -> (r: Table<String>)
    ensures
        r.wf(),
        forall|id: Seq<char>| #[trigger]
            at(r.deep_view(), id) == effective_at(js.deep_view(), id),
{
    let ghost all = js.deep_view();
    let mut t: Table<String> = Table::new();
    let mut i: usize = 0;
    while i < js.len()
        invariant
            all == js.deep_view(),
            i <= js@.len(),
            t.wf(),
            forall|id: Seq<char>| #[trigger]
                at(t.deep_view(), id) == effective_at(all.take(i as int), id),
        decreases js.len() - i,
    {
        let ghost upto = all.take(i + 1);
        let ghost o = t.deep_view();
        assert(upto.drop_last() =~= all.take(i as int));
        assert(upto.last() == js@[i as int].deep_view());
        if let Some(e) = &js[i].1.expression {
            t.put(js[i].0.id.as_str(), owned(e.as_str()));
        }
        assert forall|id: Seq<char>| #[trigger] at(t.deep_view(), id) == effective_at(upto, id) by {
            assert(at(o, id) == effective_at(all.take(i as int), id));
        }
        i += 1;
    }
    assert(all.take(i as int) =~= all);
    t
}

/// The licenses that packages are attributed under, by package id.
pub fn chosen_table<'a>(js: &Vec<(&'a Package, Judgement)>) -> (r: Table<Vec<String>>)
    ensures
        r.wf(),
        forall|id: Seq<char>| #[trigger] at(r.deep_view(), id) == chosen_at(js.deep_view(), id),
{
    let ghost all = js.deep_view();
    let mut t: Table<Vec<String>> = Table::new();
    let mut i: usize = 0;
    while i < js.len()
        invariant
            all == js.deep_view(),
            i <= js@.len(),
            t.wf(),
            forall|id: Seq<char>| #[trigger]
                at(t.deep_view(), id) == chosen_at(all.take(i as int), id),
        decreases js.len() - i,
    {
        let ghost upto = all.take(i + 1);
        let ghost o = t.deep_view();
        assert(upto.drop_last() =~= all.take(i as int));
        assert(upto.last() == js@[i as int].deep_view());
        if let Some(c) = &js[i].1.chosen {
            t.put(js[i].0.id.as_str(), c.clone());
        }
        assert forall|id: Seq<char>| #[trigger] at(t.deep_view(), id) == chosen_at(upto, id) by {
            assert(at(o, id) == chosen_at(all.take(i as int), id));
        }
        i += 1;
    }
    assert(all.take(i as int) =~= all);
    t
}

/// Appends to the list beside a key, in a new row if there is none.
pub fn put_under<'a, T: DeepView>(t: &mut Table<Vec<&'a T>>, k: &str, x: &'a T)
    requires
        old(t).wf(),
    ensures
        final(t).wf(),
        forall|y: Seq<char>| #[trigger]
            at(final(t).deep_view(), y) == if y == k@ {
                Some(or_none(at(old(t).deep_view(), k@)).push(x.deep_view()))
            } else {
                at(old(t).deep_view(), y)
            },
{
    let ghost was = t.deep_view();
    let mut list: Vec<&'a T> = match t.get(k) {
        Some(l) => copied(l),
        None => {
            let none: Vec<&'a T> = Vec::new();
            assert(none.deep_view() =~= Seq::<T::V>::empty());
            none
        },
    };
    let ghost before_push = list.deep_view();
    list.push(x);
    assert(list.deep_view() =~= before_push.push(x.deep_view()));
    t.put(k, list);
}

/// A copy of a list of references.
fn copied<'a, T: DeepView>(l: &Vec<&'a T>) -> (r: Vec<&'a T>)
    ensures
        r.deep_view() == l.deep_view(),
{
    let mut out: Vec<&'a T> = Vec::new();
    let mut i: usize = 0;
    while i < l.len()
        invariant
            i <= l@.len(),
            out@.len() == i,
            forall|j: int| 0 <= j < i ==> out@[j] == l@[j],
        decreases l.len() - i,
    {
        out.push(l[i]);
        i += 1;
    }
    assert(out.deep_view() =~= l.deep_view());
    out
}

/// What is attributed under each license.
pub fn group_by_license<'a, T: DeepView>(js: &Vec<(&'a T, Judgement)>) -> (r: Table<Vec<&'a T>>)
    requires
        all_sorted(js.deep_view()),
    ensures
        r.wf(),
        forall|lic: Seq<char>| #[trigger]
            at(r.deep_view(), lic) == some_of(licensed(js.deep_view(), lic)),
{
    let ghost all = js.deep_view();
    let mut t: Table<Vec<&'a T>> = Table::new();
    let mut i: usize = 0;
    while i < js.len()
        invariant
            all == js.deep_view(),
            all_sorted(all),
            i <= js@.len(),
            t.wf(),
            forall|lic: Seq<char>| #[trigger]
                at(t.deep_view(), lic) == some_of(licensed(all.take(i as int), lic)),
        decreases js.len() - i,
    {
        let ghost upto = all.take(i + 1);
        let ghost rest = all.take(i as int);
        let ghost v = all[i as int].0;
        assert(upto.drop_last() =~= rest);
        assert(upto.last() == js@[i as int].deep_view());
        assert(all[i as int] == js@[i as int].deep_view());
        if let Some(c) = &js[i].1.chosen {
            let ghost cv = c.deep_view();
            let mut k: usize = 0;
            assert(sorted(cv));
            while k < c.len()
                invariant
                    i < js@.len(),
                    v == js@[i as int].0.deep_view(),
                    cv == c.deep_view(),
                    sorted(cv),
                    k <= c@.len(),
                    t.wf(),
                    forall|lic: Seq<char>| #[trigger]
                        at(t.deep_view(), lic) == if cv.take(k as int).contains(lic) {
                            Some(licensed(rest, lic).push(v))
                        } else {
                            some_of(licensed(rest, lic))
                        },
                decreases c.len() - k,
            {
                let ghost o = t.deep_view();
                let ghost x = cv[k as int];
                let ghost u = cv.take(k as int);
                let ghost w = cv.take(k + 1);
                proof {
                    assert(w =~= u.push(x));
                    precedes_irreflexive(x);
                    assert(!u.contains(x)) by {
                        if u.contains(x) {
                            let m = choose|m: int| 0 <= m < u.len() && u[m] == x;
                            assert(cv[m] == x);
                        }
                    }
                    assert(at(o, x) == some_of(licensed(rest, x)));
                }
                put_under(&mut t, c[k].as_str(), js[i].0);
                assert forall|lic: Seq<char>| #[trigger]
                    at(t.deep_view(), lic) == if w.contains(lic) {
                        Some(licensed(rest, lic).push(v))
                    } else {
                        some_of(licensed(rest, lic))
                    } by {
                    assert(at(o, lic) == if u.contains(lic) {
                        Some(licensed(rest, lic).push(v))
                    } else {
                        some_of(licensed(rest, lic))
                    });
                    if lic == x {
                        assert(w[k as int] == x);
                        assert(or_none(some_of(licensed(rest, x))) =~= licensed(rest, x));
                    } else if u.contains(lic) {
                        let m = choose|m: int| 0 <= m < u.len() && u[m] == lic;
                        assert(w[m] == lic);
                    } else if w.contains(lic) {
                        let m = choose|m: int| 0 <= m < w.len() && w[m] == lic;
                        assert(m < k);
                        assert(u[m] == lic);
                    }
                }
                k += 1;
            }
            assert(cv.take(k as int) =~= cv);
        }
        assert forall|lic: Seq<char>| #[trigger]
            at(t.deep_view(), lic) == some_of(licensed(upto, lic)) by {
            assert(licensed(upto, lic) == if is_under(all[i as int].1, lic) {
                licensed(rest, lic).push(v)
            } else {
                licensed(rest, lic)
            });
        }
        i += 1;
    }
    assert(all.take(i as int) =~= all);
    t
}

/// What is attributed at all, each with its licenses.
pub fn attributed_list<'a, T: DeepView>(js: &Vec<(&'a T, Judgement)>) -> (r: Vec<
    (&'a T, Vec<String>),
>)
    ensures
        r.deep_view() == attributed(js.deep_view()),
{
    let ghost all = js.deep_view();
    let mut out: Vec<(&'a T, Vec<String>)> = Vec::new();
    let mut i: usize = 0;
    assert(out.deep_view() =~= attributed(all.take(0)));
    while i < js.len()
        invariant
            all == js.deep_view(),
            i <= js@.len(),
            out.deep_view() == attributed(all.take(i as int)),
        decreases js.len() - i,
    {
        let ghost upto = all.take(i + 1);
        let ghost o = out.deep_view();
        assert(upto.drop_last() =~= all.take(i as int));
        assert(upto.last() == js@[i as int].deep_view());
        if let Some(c) = &js[i].1.chosen {
            let pair = (js[i].0, c.clone());
            let ghost v = pair.deep_view();
            out.push(pair);
            assert(out.deep_view() =~= o.push(v));
        }
        i += 1;
    }
    assert(all.take(i as int) =~= all);
    out
}

/// Adds the exceptions of everything that was judged to a set.
pub fn add_exceptions<'a, T: DeepView>(js: &Vec<(&'a T, Judgement)>, set: &mut Vec<String>)
    requires
        sorted(old(set).deep_view()),
    ensures
        sorted(final(set).deep_view()),
        forall|e: Seq<char>| #[trigger]
            final(set).deep_view().contains(e) <==> old(set).deep_view().contains(e)
                || has_exception(js.deep_view(), e),
{
    let ghost all = js.deep_view();
    let ghost was = set.deep_view();
    let mut i: usize = 0;
    while i < js.len()
        invariant
            all == js.deep_view(),
            i <= js@.len(),
            sorted(set.deep_view()),
            forall|e: Seq<char>| #[trigger]
                set.deep_view().contains(e) <==> was.contains(e) || has_exception(
                    all.take(i as int),
                    e,
                ),
        decreases js.len() - i,
    {
        let ghost o = set.deep_view();
        let ghost u = all.take(i as int);
        let ghost w = all.take(i + 1);
        let ghost more = js@[i as int].1.exceptions.deep_view();
        assert(all[i as int] == js@[i as int].deep_view());
        add_all(set, &js[i].1.exceptions);
        assert forall|e: Seq<char>| #[trigger]
            set.deep_view().contains(e) == (was.contains(e) || has_exception(w, e)) by {
            assert(set.deep_view().to_set().contains(e) == o.to_set().union(
                more.to_set(),
            ).contains(e));
            if has_exception(u, e) {
                let k = choose|k: int| 0 <= k < u.len() && (#[trigger] u[k]).1.exceptions.contains(e);
                assert(w[k].1.exceptions.contains(e));
            }
            if more.contains(e) {
                assert(w[i as int].1.exceptions.contains(e));
            }
            if has_exception(w, e) {
                let k = choose|k: int| 0 <= k < w.len() && (#[trigger] w[k]).1.exceptions.contains(e);
                if k < i {
                    assert(u[k].1.exceptions.contains(e));
                }
            }
        }
        i += 1;
    }
    assert(all.take(i as int) =~= all);
}

/// Whether some expression has a license that an accepted entry allows.
pub fn is_referred<'a, T: DeepView>(js: &Vec<(&'a T, Judgement)>, a: &Accept) -> (r: bool)
    ensures
        r == refers(js.deep_view(), a.deep_view()),
{
    let ghost all = js.deep_view();
    let ghost av = a.deep_view();
    let mut i: usize = 0;
    while i < js.len()
        invariant
            all == js.deep_view(),
            av == a.deep_view(),
            i <= js@.len(),
            forall|j: int, k: int|
                0 <= j < i && 0 <= k < all[j].1.terms.len() ==> !allowed_by(
                    av,
                    (#[trigger] all[j].1.terms[k]).0,
                    all[j].1.terms[k].1,
                ),
        decreases js.len() - i,
    {
        assert(all[i as int] == js@[i as int].deep_view());
        let terms = &js[i].1.terms;
        let ghost tv = terms.deep_view();
        let mut k: usize = 0;
        while k < terms.len()
            invariant
                all == js.deep_view(),
                av == a.deep_view(),
                i < js@.len(),
                tv == terms.deep_view(),
                tv == all[i as int].1.terms,
                k <= terms@.len(),
                forall|m: int|
                    0 <= m < k ==> !allowed_by(av, (#[trigger] tv[m]).0, tv[m].1),
            decreases terms.len() - k,
        {
            assert(tv[k as int] == terms@[k as int].deep_view());
            if a.allows(terms[k].0.as_str(), borrowed(&terms[k].1)) {
                assert(allowed_by(
                    av,
                    all[i as int].1.terms[k as int].0,
                    all[i as int].1.terms[k as int].1,
                ));
                return true;
            }
            k += 1;
        }
        i += 1;
    }
    false
}

// ---------------------------------------------------------------- laws

/// The policy gate passes exactly when every dependency has a package whose license is
/// covered by what is accepted for it.
pub proof fn gate_passes_when_all_are_accepted(
    policy: PolicyView,
    packages: Seq<PackageView>,
    ids: Seq<Seq<char>>,
)
    ensures
        package_failures(policy, packages, ids).len() == 0 <==> forall|i: int|
            0 <= i < ids.len() ==> (package_at(packages, #[trigger] ids[i]) matches Some(p)
                && package_judgement(policy, p).failure is None),
    decreases ids.len(),
{
    if ids.len() > 0 {
        let t = ids.drop_last();
        gate_passes_when_all_are_accepted(policy, packages, t);
        if package_failures(policy, packages, ids).len() == 0 {
            assert forall|i: int| 0 <= i < ids.len() implies (package_at(
                packages,
                #[trigger] ids[i],
            ) matches Some(p) && package_judgement(policy, p).failure is None) by {
                if i < t.len() {
                    assert(t[i] == ids[i]);
                }
            }
        }
        if forall|i: int|
            0 <= i < ids.len() ==> (package_at(packages, #[trigger] ids[i]) matches Some(p)
                && package_judgement(policy, p).failure is None) {
            assert forall|i: int| 0 <= i < t.len() implies (package_at(
                packages,
                #[trigger] t[i],
            ) matches Some(p) && package_judgement(policy, p).failure is None) by {
                assert(t[i] == ids[i]);
            }
            assert(ids[ids.len() - 1] == ids.last());
        }
    }
}

/// A package either fails the policy or is attributed under some licenses, never both.
pub proof fn fails_or_is_attributed(policy: PolicyView, p: PackageView)
    ensures
        package_judgement(policy, p).failure is None <==> package_judgement(policy, p).chosen is Some,
{
}

/// What an exception allows stays with the packages that it applies to: another package is
/// judged by the accepted list alone.
pub proof fn exceptions_stay_with_their_crate(
    accepted: Seq<AcceptView>,
    exceptions: Seq<ExceptionView>,
    p: PackageView,
)
    requires
        forall|i: int|
            0 <= i < exceptions.len() ==> !entry_applies(
                (#[trigger] exceptions[i]).name,
                exceptions[i].version,
                p.name,
                p.version,
            ),
    ensures
        accepted_for(accepted, exceptions, p) == accepted,
    decreases exceptions.len(),
{
    if exceptions.len() > 0 {
        let t = exceptions.drop_last();
        assert forall|i: int| 0 <= i < t.len() implies !entry_applies(
            (#[trigger] t[i]).name,
            t[i].version,
            p.name,
            p.version,
        ) by {
            assert(t[i] == exceptions[i]);
        }
        exceptions_stay_with_their_crate(accepted, t, p);
        assert(exceptions[exceptions.len() - 1] == exceptions.last());
    } else {
        assert(accepted + allowed_beyond(exceptions, p.name, p.version) =~= accepted);
    }
}

/// An id is the one that a package is looked up by.
pub proof fn found_by_its_id(packages: Seq<PackageView>, id: Seq<char>)
    ensures
        package_at(packages, id) matches Some(p) ==> p.id == id,
    decreases packages.len(),
{
    if packages.len() > 0 && packages.last().id != id {
        found_by_its_id(packages.drop_last(), id);
    }
}

/// Every dependency is judged: what is used and chosen for it is what the policy makes of
/// its package.
pub proof fn each_dependency_is_judged(
    policy: PolicyView,
    packages: Seq<PackageView>,
    ids: Seq<Seq<char>>,
    i: int,
)
    requires
        0 <= i < ids.len(),
        package_at(packages, ids[i]) is Some,
    ensures
        ({
            let p = package_at(packages, ids[i])->0;
            let js = judged_packages(policy, packages, ids);
            let j = package_judgement(policy, p);
            &&& effective_at(js, ids[i]) == j.expression
            &&& chosen_at(js, ids[i]) == j.chosen
            &&& forall|lic: Seq<char>| is_under(j, lic) ==> #[trigger] licensed(js, lic).contains(p)
        }),
    decreases ids.len(),
{
    let id = ids[i];
    let p = package_at(packages, id)->0;
    let j = package_judgement(policy, p);
    let t = ids.drop_last();
    let js = judged_packages(policy, packages, ids);
    let rest = judged_packages(policy, packages, t);
    found_by_its_id(packages, id);
    found_by_its_id(packages, ids.last());
    fails_or_is_attributed(policy, p);
    if ids.last() == id {
        assert(js == rest.push((p, j)));
        assert(js.drop_last() =~= rest);
        if j.expression is None || j.chosen is None {
            judged_alike(policy, packages, t, id);
        }
        assert forall|lic: Seq<char>| is_under(j, lic) implies #[trigger] licensed(
            js,
            lic,
        ).contains(p) by {
            let l = licensed(rest, lic).push(p);
            assert(licensed(js, lic) == l);
            assert(l[l.len() - 1] == p);
        }
    } else {
        assert(t[i] == id);
        each_dependency_is_judged(policy, packages, t, i);
        if package_at(packages, ids.last()) is Some {
            let q = package_at(packages, ids.last())->0;
            assert(js == rest.push((q, package_judgement(policy, q))));
            assert(js.drop_last() =~= rest);
            assert forall|lic: Seq<char>| is_under(j, lic) implies #[trigger] licensed(
                js,
                lic,
            ).contains(p) by {
                let l = licensed(rest, lic);
                assert(l.contains(p));
                let k = choose|k: int| 0 <= k < l.len() && l[k] == p;
                if is_under(js.last().1, lic) {
                    assert(l.push(q)[k] == p);
                }
            }
        }
    }
}

/// Each time a package is judged, the outcome is the same; one that has none has none at
/// all.
proof fn judged_alike(
    policy: PolicyView,
    packages: Seq<PackageView>,
    ids: Seq<Seq<char>>,
    id: Seq<char>,
)
    requires
        package_at(packages, id) is Some,
    ensures
        ({
            let j = package_judgement(policy, package_at(packages, id)->0);
            let js = judged_packages(policy, packages, ids);
            &&& j.expression is None ==> effective_at(js, id) is None
            &&& j.chosen is None ==> chosen_at(js, id) is None
        }),
    decreases ids.len(),
{
    if ids.len() > 0 {
        let t = ids.drop_last();
        judged_alike(policy, packages, t, id);
        found_by_its_id(packages, ids.last());
        if package_at(packages, ids.last()) is Some {
            let q = package_at(packages, ids.last())->0;
            let rest = judged_packages(policy, packages, t);
            let js = judged_packages(policy, packages, ids);
            assert(js == rest.push((q, package_judgement(policy, q))));
            assert(js.drop_last() =~= rest);
        }
    }
}

} // verus!
