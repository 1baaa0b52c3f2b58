//! Which expression counts for a package, what is accepted for it, and what follows.

use vstd::prelude::*;
use crate::config::{
    accept_of, accepts_of, allowed_by, clarified, entry_applies, AcceptView, ClarifyView,
    ExceptionView, ExtraView,
};
use crate::expression::{name_of, spdx_parse, NodeView, TermView};
use crate::graph::{package_at, PackageView};
use crate::policy::{
    accepted_term, best_from, choice_follows_the_tree, chosen, chosen_exactly_when_covered,
    corpus_text, exceptions_in, spdx_exception_text, spdx_license_text, Tree,
};
use crate::resolve::{
    accepted_for, allowed_beyond, attributed, extra_judgement, failures_in, judged_packages,
    licensed, package_failures, package_judgement, shown_id, terms_of, JudgementView, PolicyView,
};
use crate::scan::{contains, first_at, first_from_is_least, trimmed};
use crate::sets::{in_order, in_order_lists, sorted};
use crate::versions::semver_matches;

verus! {

// ---------------------------------------------------------------- entries for one crate

/// An entry without a version applies to every version of the crate that it names; one with
/// a version to those that meet it; none to another crate.
pub proof fn entry_goes_by_name_and_version(name: Seq<char>, req: Seq<char>, pkg: Seq<char>, version: Seq<char>)
    ensures
        entry_applies(name, None, name, version),
        entry_applies(name, Some(req), name, version) <==> semver_matches(req, version) == Some(true),
        name != pkg ==> !entry_applies(name, None, pkg, version) && !entry_applies(name, Some(req), pkg, version),
{
}

proof fn first_entry_clarifies(clarify: Seq<ClarifyView>, name: Seq<char>, version: Seq<char>, i: int)
    requires
        0 <= i <= clarify.len(),
        i < clarify.len() ==> clarify[i].name == name && (clarify[i].version matches Some(r)
            ==> semver_matches(r, version) == Some(true)),
        forall|j: int|
            0 <= j < i ==> (#[trigger] clarify[j]).name != name || (clarify[j].version matches Some(r)
                && semver_matches(r, version) != Some(true)),
    ensures
        clarified(clarify, name, version) == if i < clarify.len() {
            Some(clarify[i].expression)
        } else {
            None
        },
    decreases clarify.len(),
{
    if clarify.len() > 0 && i > 0 {
        let t = clarify.drop_first();
        assert(clarify[0].name != name || clarify[0].version is Some);
        assert forall|j: int| 0 <= j < i - 1 implies (#[trigger] t[j]).name != name || (t[j].version matches Some(r)
            && semver_matches(r, version) != Some(true)) by {
            assert(t[j] == clarify[j + 1]);
        }
        first_entry_clarifies(t, name, version, i - 1);
    }
}

/// The first clarify entry that names a package, and whose version requirement it meets if
/// there is one, overrides whatever the package declares.
pub proof fn first_clarify_entry_overrides(policy: PolicyView, p: PackageView, i: int)
    requires
        0 <= i < policy.clarify.len(),
        policy.clarify[i].name == p.name,
        policy.clarify[i].version matches Some(r) ==> semver_matches(r, p.version) == Some(true),
        forall|j: int|
            0 <= j < i ==> (#[trigger] policy.clarify[j]).name != p.name || (policy.clarify[j].version matches Some(r)
                && semver_matches(r, p.version) != Some(true)),
    ensures
        package_judgement(policy, p).expression == Some(policy.clarify[i].expression),
{
    first_entry_clarifies(policy.clarify, p.name, p.version, i);
}

/// Only where no clarify entry applies does the declared license count.
pub proof fn declared_license_counts_otherwise(policy: PolicyView, p: PackageView)
    requires
        forall|j: int|
            0 <= j < policy.clarify.len() ==> (#[trigger] policy.clarify[j]).name != p.name || (policy.clarify[j].version matches Some(r)
                && semver_matches(r, p.version) != Some(true)),
    ensures
        package_judgement(policy, p).expression == p.license,
{
    first_entry_clarifies(policy.clarify, p.name, p.version, policy.clarify.len() as int);
}

/// What a package declares makes no difference once an entry clarifies it.
pub proof fn clarified_package_may_declare_anything(policy: PolicyView, p: PackageView, q: PackageView, i: int)
    requires
        0 <= i < policy.clarify.len(),
        policy.clarify[i].name == p.name,
        policy.clarify[i].version is None,
        q == (PackageView { license: q.license, ..p }),
    ensures
        package_judgement(policy, p) == package_judgement(policy, q),
    decreases i,
{
    clarified_at_all(policy.clarify, p.name, p.version, i);
}

proof fn clarified_at_all(clarify: Seq<ClarifyView>, name: Seq<char>, version: Seq<char>, i: int)
    requires
        0 <= i < clarify.len(),
        clarify[i].name == name,
        clarify[i].version is None,
    ensures
        clarified(clarify, name, version) is Some,
    decreases i,
{
    if i > 0 {
        let t = clarify.drop_first();
        assert(t[i - 1] == clarify[i]);
        clarified_at_all(t, name, version, i - 1);
    }
}

// ---------------------------------------------------------------- what is accepted

/// An entry reads `license WITH exception`, with white space around either ignored, and
/// stands for the license with that exception only; without ` WITH ` it is the license.
pub proof fn entry_is_read(a: Seq<char>, b: Seq<char>)
    requires
        first_at(a + " WITH "@ + b, " WITH "@) == Some(a.len() as int),
    ensures
        accept_of(a + " WITH "@ + b).raw == a + " WITH "@ + b,
        accept_of(a + " WITH "@ + b).license == trimmed(a),
        accept_of(a + " WITH "@ + b).exception == Some(trimmed(b)),
{
    reveal_strlit(" WITH ");
    let s = a + " WITH "@ + b;
    assert(s.take(a.len() as int) =~= a);
    assert(s.skip(a.len() as int + 6) =~= b);
}

/// An entry without ` WITH ` is a license, white space around it aside.
pub proof fn bare_entry_is_read(s: Seq<char>)
    requires
        !contains(s, " WITH "@),
    ensures
        accept_of(s).raw == s,
        accept_of(s).license == trimmed(s),
        accept_of(s).exception is None,
{
    first_from_is_least(s, " WITH "@, 0);
}

/// A bare entry allows its license with any exception and without one; a pairing exactly
/// itself; neither allows another license.
pub proof fn entry_allows_its_license(license: Seq<char>, other: Seq<char>, e: Seq<char>, raw: Seq<char>, x: Option<Seq<char>>)
    ensures
        allowed_by((AcceptView { raw, license, exception: None }), license, x),
        allowed_by((AcceptView { raw, license, exception: Some(e) }), license, x) <==> x == Some(e),
        other != license ==> !allowed_by((AcceptView { raw, license, exception: None }), other, x)
            && !allowed_by((AcceptView { raw, license, exception: Some(e) }), other, x),
{
}

proof fn allowed_beyond_holds(exceptions: Seq<ExceptionView>, name: Seq<char>, version: Seq<char>, a: AcceptView)
    ensures
        allowed_beyond(exceptions, name, version).contains(a) <==> exists|i: int, k: int|
            0 <= i < exceptions.len() && 0 <= k < exceptions[i].allow.len() && exceptions[i].name == name
                && (exceptions[i].version matches Some(r) ==> semver_matches(r, version) == Some(true))
                && a == accept_of(#[trigger] exceptions[i].allow[k]),
    decreases exceptions.len(),
{
    if exceptions.len() > 0 {
        let t = exceptions.drop_last();
        let x = exceptions.last();
        let rest = allowed_beyond(t, name, version);
        let more = accepts_of(x.allow);
        let all = allowed_beyond(exceptions, name, version);
        allowed_beyond_holds(t, name, version, a);
        assert(exceptions[exceptions.len() - 1] == x);
        if rest.contains(a) {
            let (i, k) = choose|i: int, k: int|
                0 <= i < t.len() && 0 <= k < t[i].allow.len() && t[i].name == name && (t[i].version matches Some(r)
                    ==> semver_matches(r, version) == Some(true)) && a == accept_of(#[trigger] t[i].allow[k]);
            assert(exceptions[i].allow[k] == t[i].allow[k]);
            let m = choose|m: int| 0 <= m < rest.len() && rest[m] == a;
            assert(all[m] == a);
        }
        if entry_applies(x.name, x.version, name, version) && more.contains(a) {
            let m = choose|m: int| 0 <= m < more.len() && more[m] == a;
            assert(all[rest.len() + m] == a);
            assert(a == accept_of(exceptions[exceptions.len() - 1].allow[m]));
        }
        if all.contains(a) && !rest.contains(a) {
            let m = choose|m: int| 0 <= m < all.len() && all[m] == a;
            if m < rest.len() {
                assert(rest[m] == a);
            }
            assert(more[m - rest.len()] == a);
        }
        if exists|i: int, k: int|
            0 <= i < exceptions.len() && 0 <= k < exceptions[i].allow.len() && exceptions[i].name == name
                && (exceptions[i].version matches Some(r) ==> semver_matches(r, version) == Some(true))
                && a == accept_of(#[trigger] exceptions[i].allow[k]) {
            let (i, k) = choose|i: int, k: int|
                0 <= i < exceptions.len() && 0 <= k < exceptions[i].allow.len() && exceptions[i].name == name
                    && (exceptions[i].version matches Some(r) ==> semver_matches(r, version) == Some(true))
                    && a == accept_of(#[trigger] exceptions[i].allow[k]);
            if i < t.len() {
                assert(t[i].allow[k] == exceptions[i].allow[k]);
            } else {
                assert(more[k] == a);
            }
        }
    }
}

/// What exceptions allow comes in their order, and that of one exception as it is listed.
pub proof fn allowed_entries_in_order(
    a: Seq<ExceptionView>,
    b: Seq<ExceptionView>,
    x: ExceptionView,
    name: Seq<char>,
    version: Seq<char>,
)
    ensures
        allowed_beyond(a + b, name, version) == allowed_beyond(a, name, version) + allowed_beyond(b, name, version),
        allowed_beyond(seq![x], name, version) == if x.name == name && (x.version matches Some(r) ==> semver_matches(
            r,
            version,
        ) == Some(true)) {
            Seq::new(x.allow.len(), |i: int| accept_of(x.allow[i]))
        } else {
            Seq::empty()
        },
    decreases b.len(),
{
    let all = allowed_beyond(a + b, name, version);
    if b.len() == 0 {
        assert(a + b =~= a);
        assert(allowed_beyond(a, name, version) + allowed_beyond(b, name, version) =~= all);
    } else {
        allowed_entries_in_order(a, b.drop_last(), x, name, version);
        assert((a + b).drop_last() =~= a + b.drop_last());
        assert(all =~= allowed_beyond(a, name, version) + allowed_beyond(b, name, version));
    }
    reveal_with_fuel(allowed_beyond, 2);
    assert(seq![x].drop_last() =~= Seq::<ExceptionView>::empty());
    assert(accepts_of(x.allow) =~= Seq::new(x.allow.len(), |i: int| accept_of(x.allow[i])));
    assert(Seq::<AcceptView>::empty() + accepts_of(x.allow) =~= accepts_of(x.allow));
}

/// For a package, the accepted list counts in full and ahead of everything else; behind it
/// stand the entries of all exceptions that name the package and whose version requirement
/// it meets, and no others.
pub proof fn accepted_for_a_package(accepted: Seq<AcceptView>, exceptions: Seq<ExceptionView>, p: PackageView, a: AcceptView)
    ensures
        accepted_for(accepted, exceptions, p).len() >= accepted.len(),
        accepted_for(accepted, exceptions, p).take(accepted.len() as int) == accepted,
        accepted_for(accepted, exceptions, p).skip(accepted.len() as int).contains(a) <==> exists|i: int, k: int|
            0 <= i < exceptions.len() && 0 <= k < exceptions[i].allow.len() && exceptions[i].name == p.name
                && (exceptions[i].version matches Some(r) ==> semver_matches(r, p.version) == Some(true))
                && a == accept_of(#[trigger] exceptions[i].allow[k]),
{
    let more = allowed_beyond(exceptions, p.name, p.version);
    let all = accepted_for(accepted, exceptions, p);
    assert(all.take(accepted.len() as int) =~= accepted);
    assert(all.skip(accepted.len() as int) =~= more);
    allowed_beyond_holds(exceptions, p.name, p.version, a);
}

/// Some entry of the accepted list, or of an exception that applies to the package, names
/// the license, and either asks for no exception or for that of the term.
pub open spec fn may_use(policy: PolicyView, p: PackageView, t: TermView) -> bool {
    ||| exists|i: int|
        0 <= i < policy.accepted.len() && (#[trigger] policy.accepted[i]).license == name_of(t) && (policy.accepted[i].exception matches Some(e)
            ==> t.exception == Some(e))
    ||| exists|i: int, k: int|
        0 <= i < policy.exceptions.len() && 0 <= k < policy.exceptions[i].allow.len() && policy.exceptions[i].name == p.name
            && (policy.exceptions[i].version matches Some(r) ==> semver_matches(r, p.version) == Some(true))
            && accept_of(#[trigger] policy.exceptions[i].allow[k]).license == name_of(t) && (accept_of(policy.exceptions[i].allow[k]).exception matches Some(e)
            ==> t.exception == Some(e))
}

/// The package may be used under the expression: under a term that may be used, under both
/// sides of an `AND`, under one side of an `OR`.
pub open spec fn may_use_under(policy: PolicyView, p: PackageView, tree: Tree) -> bool
    decreases tree,
{
    match tree {
        Tree::Leaf(t) => may_use(policy, p, t),
        Tree::And(a, b) => may_use_under(policy, p, *a) && may_use_under(policy, p, *b),
        Tree::Or(a, b) => may_use_under(policy, p, *a) || may_use_under(policy, p, *b),
    }
}

proof fn accepted_term_may_be_used(policy: PolicyView, p: PackageView, t: TermView)
    ensures
        accepted_term(t, accepted_for(policy.accepted, policy.exceptions, p)) <==> may_use(policy, p, t),
{
    let acc = policy.accepted;
    let all = accepted_for(acc, policy.exceptions, p);
    let n = acc.len() as int;
    if accepted_term(t, all) {
        let i = choose|i: int| 0 <= i < all.len() && allowed_by(#[trigger] all[i], name_of(t), t.exception);
        accepted_for_a_package(acc, policy.exceptions, p, all[i]);
        if i < n {
            assert(acc[i] == all.take(n)[i]);
        } else {
            assert(all.skip(n)[i - n] == all[i]);
        }
    }
    if may_use(policy, p, t) {
        if exists|i: int|
            0 <= i < acc.len() && (#[trigger] acc[i]).license == name_of(t) && (acc[i].exception matches Some(e) ==> t.exception == Some(e)) {
            let i = choose|i: int|
                0 <= i < acc.len() && (#[trigger] acc[i]).license == name_of(t) && (acc[i].exception matches Some(e)
                    ==> t.exception == Some(e));
            assert(all[i] == acc[i]);
            assert(allowed_by(all[i], name_of(t), t.exception));
        } else {
            let xs = policy.exceptions;
            let (i, k) = choose|i: int, k: int|
                0 <= i < xs.len() && 0 <= k < xs[i].allow.len() && xs[i].name == p.name && (xs[i].version matches Some(r)
                    ==> semver_matches(r, p.version) == Some(true)) && accept_of(#[trigger] xs[i].allow[k]).license == name_of(t)
                    && (accept_of(xs[i].allow[k]).exception matches Some(e) ==> t.exception == Some(e));
            let a = accept_of(xs[i].allow[k]);
            accepted_for_a_package(acc, xs, p, a);
            let rest = all.skip(n);
            let m = choose|m: int| 0 <= m < rest.len() && rest[m] == a;
            assert(all[n + m] == a);
            assert(allowed_by(all[n + m], name_of(t), t.exception));
        }
    }
}

proof fn covered_may_be_used(policy: PolicyView, p: PackageView, tree: Tree)
    ensures
        tree.covered(accepted_for(policy.accepted, policy.exceptions, p)) <==> may_use_under(policy, p, tree),
    decreases tree,
{
    match tree {
        Tree::Leaf(t) => accepted_term_may_be_used(policy, p, t),
        Tree::And(a, b) => {
            covered_may_be_used(policy, p, *a);
            covered_may_be_used(policy, p, *b);
        },
        Tree::Or(a, b) => {
            covered_may_be_used(policy, p, *a);
            covered_may_be_used(policy, p, *b);
        },
    }
}

/// A package passes the policy exactly when the expression that counts for it parses and
/// the package may be used under it; then it is attributed. Otherwise the failure names the
/// package and what is wrong.
pub proof fn policy_passes_what_may_be_used(policy: PolicyView, p: PackageView, tree: Tree, e: Seq<char>)
    requires
        package_judgement(policy, p).expression == Some(e),
        spdx_parse(e) == Ok::<Seq<NodeView>, Seq<char>>(tree.postfix()),
    ensures
        package_judgement(policy, p).failure is None <==> may_use_under(policy, p, tree),
        package_judgement(policy, p).chosen is Some <==> may_use_under(policy, p, tree),
        package_judgement(policy, p).failure matches Some(f) ==> f == p.name + " "@ + p.version + ": license '"@ + e
            + "' not in the accepted set"@,
{
    covered_may_be_used(policy, p, tree);
    chosen_exactly_when_covered(tree, accepted_for(policy.accepted, policy.exceptions, p));
}

/// A package without an expression, or with one that does not parse, fails, and is not
/// attributed; the failure names the package and, where there is one, the expression.
pub proof fn policy_fails_without_an_expression(policy: PolicyView, p: PackageView)
    ensures
        ({
            let j = package_judgement(policy, p);
            match j.expression {
                None => {
                    &&& j.failure == Some(
                        p.name + " "@ + p.version + ": no license field (add a [[clarify]] entry to tribute.toml)"@,
                    )
                    &&& j.chosen is None && j.exceptions.len() == 0 && j.terms.len() == 0
                },
                Some(e) => spdx_parse(e) matches Err(m) ==> {
                    &&& j.failure == Some(p.name + " "@ + p.version + ": unparsable SPDX '"@ + e + "' ("@ + m + ")"@)
                    &&& j.chosen is None && j.exceptions.len() == 0 && j.terms.len() == 0
                },
            }
        }),
{
}

/// An extra entry is judged as a package would be that declares its expression and that no
/// entry names: by the accepted list alone.
pub proof fn extra_is_judged_by_the_accepted_list(accepted: Seq<AcceptView>, x: ExtraView, tree: Tree)
    requires
        spdx_parse(x.expression) == Ok::<Seq<NodeView>, Seq<char>>(tree.postfix()),
    ensures
        extra_judgement(accepted, x).expression == Some(x.expression),
        extra_judgement(accepted, x).failure is None <==> tree.covered(accepted),
        extra_judgement(accepted, x).chosen is Some <==> tree.covered(accepted),
        extra_judgement(accepted, x).failure matches Some(f) ==> f == "[[extra]] "@ + x.name + ": license '"@ + x.expression
            + "' not in the accepted set"@,
{
    chosen_exactly_when_covered(tree, accepted);
}

/// An extra entry whose expression does not parse fails, and is not attributed.
pub proof fn extra_without_an_expression_fails(accepted: Seq<AcceptView>, x: ExtraView, m: Seq<char>)
    requires
        spdx_parse(x.expression) == Err::<Seq<NodeView>, Seq<char>>(m),
    ensures
        extra_judgement(accepted, x).failure == Some("[[extra]] "@ + x.name + ": unparsable SPDX '"@ + x.expression + "' ("@ + m + ")"@),
        extra_judgement(accepted, x).chosen is None,
{
}

// ---------------------------------------------------------------- the choice

/// Of a term that is accepted, the license is chosen: by its SPDX id, or else as the
/// reference is written. A term that no entry allows has no choice.
pub proof fn accepted_term_is_chosen(t: TermView, acc: Seq<AcceptView>, name: Seq<char>)
    ensures
        chosen(Tree::Leaf(t).postfix(), acc) is Some <==> exists|i: int|
            0 <= i < acc.len() && (#[trigger] acc[i]).license == (match t.id {
                Some(id) => id,
                None => t.text,
            }) && (acc[i].exception matches Some(e) ==> t.exception == Some(e)),
        chosen(Tree::Leaf(t).postfix(), acc) matches Some(c) ==> (c.contains(name) <==> name == (match t.id {
            Some(id) => id,
            None => t.text,
        })),
{
    choice_follows_the_tree(Tree::Leaf(t), acc);
    if accepted_term(t, acc) {
        let i = choose|i: int| 0 <= i < acc.len() && allowed_by(#[trigger] acc[i], name_of(t), t.exception);
        assert(acc[i].license == name_of(t));
    }
    if exists|i: int|
        0 <= i < acc.len() && (#[trigger] acc[i]).license == name_of(t) && (acc[i].exception matches Some(e) ==> t.exception == Some(e)) {
        let i = choose|i: int|
            0 <= i < acc.len() && (#[trigger] acc[i]).license == name_of(t) && (acc[i].exception matches Some(e)
                ==> t.exception == Some(e));
        assert(allowed_by(acc[i], name_of(t), t.exception));
    }
}

/// Of an `AND`, the licenses of both sides are chosen, or none if one side has no choice.
pub proof fn and_takes_both_sides(a: Tree, b: Tree, acc: Seq<AcceptView>, name: Seq<char>)
    ensures
        ({
            let x = chosen(a.postfix(), acc);
            let y = chosen(b.postfix(), acc);
            let z = chosen(Tree::And(Box::new(a), Box::new(b)).postfix(), acc);
            &&& z is Some <==> x is Some && y is Some
            &&& z is Some ==> (z->0.contains(name) <==> x->0.contains(name) || y->0.contains(name))
        }),
{
    choice_follows_the_tree(a, acc);
    choice_follows_the_tree(b, acc);
    choice_follows_the_tree(Tree::And(Box::new(a), Box::new(b)), acc);
}

proof fn rank_is_first(set: Set<Seq<char>>, acc: Seq<AcceptView>, from: int, i: int)
    requires
        0 <= from <= i < acc.len(),
        set.contains(acc[i].license),
        forall|j: int| from <= j < i ==> !set.contains(#[trigger] acc[j].license),
    ensures
        best_from(set, acc, from) == i,
    decreases i - from,
{
    if from < i {
        assert(!set.contains(acc[from].license));
        rank_is_first(set, acc, from + 1, i);
    }
}

proof fn rank_is_beyond(set: Set<Seq<char>>, acc: Seq<AcceptView>, from: int, i: int)
    requires
        0 <= from <= i <= acc.len() <= usize::MAX,
        forall|j: int| from <= j < i ==> !set.contains(#[trigger] acc[j].license),
    ensures
        best_from(set, acc, from) >= i,
    decreases acc.len() - from,
{
    if from < acc.len() && !set.contains(acc[from].license) {
        rank_is_beyond(set, acc, from + 1, if from < i { i } else { from + 1 });
    }
}

/// Of an `OR` with a choice on both sides, that side is taken which holds the license that
/// stands first in the accepted list; where both hold it, the left one.
pub proof fn or_takes_the_preferred_side(a: Tree, b: Tree, acc: Seq<AcceptView>, i: int)
    requires
        chosen(a.postfix(), acc) is Some,
        chosen(b.postfix(), acc) is Some,
        0 <= i < acc.len() <= usize::MAX,
        chosen(a.postfix(), acc)->0.contains(acc[i].license) || chosen(b.postfix(), acc)->0.contains(acc[i].license),
        forall|j: int|
            0 <= j < i ==> !chosen(a.postfix(), acc)->0.contains((#[trigger] acc[j]).license) && !chosen(
                b.postfix(),
                acc,
            )->0.contains(acc[j].license),
    ensures
        chosen(Tree::Or(Box::new(a), Box::new(b)).postfix(), acc) == if chosen(a.postfix(), acc)->0.contains(
            acc[i].license,
        ) {
            chosen(a.postfix(), acc)
        } else {
            chosen(b.postfix(), acc)
        },
{
    choice_follows_the_tree(a, acc);
    choice_follows_the_tree(b, acc);
    choice_follows_the_tree(Tree::Or(Box::new(a), Box::new(b)), acc);
    let x = chosen(a.postfix(), acc)->0;
    let y = chosen(b.postfix(), acc)->0;
    if x.contains(acc[i].license) {
        rank_is_first(x, acc, 0, i);
        rank_is_beyond(y, acc, 0, i);
    } else {
        rank_is_first(y, acc, 0, i);
        assert forall|j: int| 0 <= j < i + 1 implies !x.contains(#[trigger] acc[j].license) by {}
        rank_is_beyond(x, acc, 0, i + 1);
    }
}

/// Of an `OR` with a choice on one side only, that side is taken; with none, there is none.
pub proof fn or_takes_the_only_side(a: Tree, b: Tree, acc: Seq<AcceptView>)
    ensures
        ({
            let z = chosen(Tree::Or(Box::new(a), Box::new(b)).postfix(), acc);
            &&& chosen(a.postfix(), acc) is None ==> z == chosen(b.postfix(), acc)
            &&& chosen(b.postfix(), acc) is None ==> z == chosen(a.postfix(), acc)
        }),
{
    choice_follows_the_tree(a, acc);
    choice_follows_the_tree(b, acc);
    choice_follows_the_tree(Tree::Or(Box::new(a), Box::new(b)), acc);
}

/// What is chosen for a package is listed in ascending order: what the expression that
/// counts for it leads to under what is accepted for it.
pub proof fn chosen_licenses_are_listed(policy: PolicyView, p: PackageView, tree: Tree, e: Seq<char>, name: Seq<char>)
    requires
        package_judgement(policy, p).expression == Some(e),
        spdx_parse(e) == Ok::<Seq<NodeView>, Seq<char>>(tree.postfix()),
        package_judgement(policy, p).chosen is Some,
    ensures
        sorted(package_judgement(policy, p).chosen->0),
        package_judgement(policy, p).chosen->0.contains(name) <==> chosen(
            tree.postfix(),
            policy.accepted + allowed_beyond(policy.exceptions, p.name, p.version),
        )->0.contains(name),
{
    let acc = accepted_for(policy.accepted, policy.exceptions, p);
    choice_follows_the_tree(tree, acc);
    pick_is_finite(tree, acc);
    let set = chosen(tree.postfix(), acc)->0;
    in_order_lists(set);
    assert(in_order(set).to_set().contains(name) == set.contains(name));
}

proof fn pick_is_finite(tree: Tree, acc: Seq<AcceptView>)
    ensures
        tree.pick(acc) matches Some(c) ==> c.finite(),
    decreases tree,
{
    match tree {
        Tree::Leaf(t) => {},
        Tree::And(a, b) => {
            pick_is_finite(*a, acc);
            pick_is_finite(*b, acc);
        },
        Tree::Or(a, b) => {
            pick_is_finite(*a, acc);
            pick_is_finite(*b, acc);
        },
    }
}

// ---------------------------------------------------------------- exceptions

/// The exceptions whose texts ship are exactly those behind a license that was chosen.
pub proof fn exceptions_of_chosen_licenses(nodes: Seq<NodeView>, set: Seq<Seq<char>>, e: Seq<char>)
    ensures
        exceptions_in(nodes, set).contains(e) <==> exists|i: int|
            0 <= i < nodes.len() && ((#[trigger] nodes[i]) matches NodeView::Req(t) && t.exception == Some(e) && set.contains(
                match t.id {
                    Some(id) => id,
                    None => t.text,
                },
            )),
    decreases nodes.len(),
{
    if nodes.len() > 0 {
        let rest = nodes.drop_last();
        exceptions_of_chosen_licenses(rest, set, e);
        let a = exceptions_in(rest, set);
        let b = exceptions_in(nodes, set);
        assert(nodes[nodes.len() - 1] == nodes.last());
        if a.contains(e) {
            let i = choose|i: int|
                0 <= i < rest.len() && ((#[trigger] rest[i]) matches NodeView::Req(t) && t.exception == Some(e) && set.contains(name_of(t)));
            assert(nodes[i] == rest[i]);
            let m = choose|m: int| 0 <= m < a.len() && a[m] == e;
            assert(b[m] == e);
        }
        if b.contains(e) && !a.contains(e) {
            let m = choose|m: int| 0 <= m < b.len() && b[m] == e;
            if m < a.len() {
                assert(a[m] == e);
            }
        }
        if exists|i: int|
            0 <= i < nodes.len() && ((#[trigger] nodes[i]) matches NodeView::Req(t) && t.exception == Some(e) && set.contains(name_of(t))) {
            let i = choose|i: int|
                0 <= i < nodes.len() && ((#[trigger] nodes[i]) matches NodeView::Req(t) && t.exception == Some(e) && set.contains(name_of(t)));
            if i < rest.len() {
                assert(rest[i] == nodes[i]);
            } else {
                assert(b[a.len() as int] == e);
            }
        }
    }
}

/// The exceptions of a package that is attributed are those of the licenses chosen for it.
pub proof fn attributed_package_ships_its_exceptions(policy: PolicyView, p: PackageView, e: Seq<char>, nodes: Seq<NodeView>)
    requires
        package_judgement(policy, p).expression == Some(e),
        spdx_parse(e) == Ok::<Seq<NodeView>, Seq<char>>(nodes),
        package_judgement(policy, p).chosen is Some,
    ensures
        forall|x: Seq<char>| #[trigger]
            package_judgement(policy, p).exceptions.contains(x) <==> exists|i: int|
                0 <= i < nodes.len() && ((#[trigger] nodes[i]) matches NodeView::Req(t) && t.exception == Some(x)
                    && package_judgement(policy, p).chosen->0.contains(name_of(t))),
{
    let j = package_judgement(policy, p);
    assert forall|x: Seq<char>| #[trigger] j.exceptions.contains(x) <==> exists|i: int|
        0 <= i < nodes.len() && ((#[trigger] nodes[i]) matches NodeView::Req(t) && t.exception == Some(x)
            && j.chosen->0.contains(name_of(t))) by {
        exceptions_of_chosen_licenses(nodes, j.chosen->0, x);
    }
}

/// Every license of an expression counts as referred to, chosen or not, with its exception.
pub proof fn every_term_is_referred_to(nodes: Seq<NodeView>, name: Seq<char>, x: Option<Seq<char>>)
    ensures
        terms_of(nodes).contains((name, x)) <==> exists|i: int|
            0 <= i < nodes.len() && ((#[trigger] nodes[i]) matches NodeView::Req(t) && t.exception == x && (match t.id {
                Some(id) => id,
                None => t.text,
            }) == name),
    decreases nodes.len(),
{
    if nodes.len() > 0 {
        let rest = nodes.drop_last();
        every_term_is_referred_to(rest, name, x);
        let a = terms_of(rest);
        let b = terms_of(nodes);
        let v = (name, x);
        assert(nodes[nodes.len() - 1] == nodes.last());
        if a.contains(v) {
            let i = choose|i: int|
                0 <= i < rest.len() && ((#[trigger] rest[i]) matches NodeView::Req(t) && t.exception == x && name_of(t) == name);
            assert(nodes[i] == rest[i]);
            let m = choose|m: int| 0 <= m < a.len() && a[m] == v;
            assert(b[m] == v);
        }
        if b.contains(v) && !a.contains(v) {
            let m = choose|m: int| 0 <= m < b.len() && b[m] == v;
            if m < a.len() {
                assert(a[m] == v);
            }
        }
        if exists|i: int|
            0 <= i < nodes.len() && ((#[trigger] nodes[i]) matches NodeView::Req(t) && t.exception == x && name_of(t) == name) {
            let i = choose|i: int|
                0 <= i < nodes.len() && ((#[trigger] nodes[i]) matches NodeView::Req(t) && t.exception == x && name_of(t) == name);
            if i < rest.len() {
                assert(rest[i] == nodes[i]);
            } else {
                assert(b[a.len() as int] == v);
            }
        }
    }
}

/// The terms of a package are those of the expression that counts for it, whether the policy
/// accepts it or not.
pub proof fn judged_terms_are_the_expressions(policy: PolicyView, p: PackageView, e: Seq<char>, nodes: Seq<NodeView>)
    requires
        package_judgement(policy, p).expression == Some(e),
        spdx_parse(e) == Ok::<Seq<NodeView>, Seq<char>>(nodes),
    ensures
        package_judgement(policy, p).terms == terms_of(nodes),
{
}

// ---------------------------------------------------------------- canonical texts

/// An id that names a license leads to the text of the license; only another one to that of
/// an exception.
pub proof fn canonical_text_prefers_the_license(id: Seq<char>)
    ensures
        spdx_license_text(id) is Some ==> corpus_text(id) == spdx_license_text(id),
        spdx_license_text(id) is None ==> corpus_text(id) == spdx_exception_text(id),
{
}

// ---------------------------------------------------------------- failures

/// Every dependency that has no package, or whose package the policy objects to, has its
/// failure in the list, and nothing else is in it.
pub proof fn each_failure_is_reported(policy: PolicyView, packages: Seq<PackageView>, ids: Seq<Seq<char>>, f: Seq<char>)
    ensures
        package_failures(policy, packages, ids).contains(f) <==> exists|i: int|
            0 <= i < ids.len() && (match package_at(packages, #[trigger] ids[i]) {
                Some(p) => package_judgement(policy, p).failure == Some(f),
                None => f == shown_id(ids[i]) + ": no package metadata (internal)"@,
            }),
        package_failures(policy, packages, ids).len() <= ids.len(),
    decreases ids.len(),
{
    if ids.len() > 0 {
        let rest = ids.drop_last();
        each_failure_is_reported(policy, packages, rest, f);
        let a = package_failures(policy, packages, rest);
        let b = package_failures(policy, packages, ids);
        assert(ids[ids.len() - 1] == ids.last());
        if a.contains(f) {
            let i = choose|i: int|
                0 <= i < rest.len() && (match package_at(packages, #[trigger] rest[i]) {
                    Some(p) => package_judgement(policy, p).failure == Some(f),
                    None => f == shown_id(rest[i]) + ": no package metadata (internal)"@,
                });
            assert(ids[i] == rest[i]);
            let m = choose|m: int| 0 <= m < a.len() && a[m] == f;
            assert(b[m] == f);
        }
        if b.contains(f) && !a.contains(f) {
            let m = choose|m: int| 0 <= m < b.len() && b[m] == f;
            if m < a.len() {
                assert(a[m] == f);
            }
        }
        if exists|i: int|
            0 <= i < ids.len() && (match package_at(packages, #[trigger] ids[i]) {
                Some(p) => package_judgement(policy, p).failure == Some(f),
                None => f == shown_id(ids[i]) + ": no package metadata (internal)"@,
            }) {
            let i = choose|i: int|
                0 <= i < ids.len() && (match package_at(packages, #[trigger] ids[i]) {
                    Some(p) => package_judgement(policy, p).failure == Some(f),
                    None => f == shown_id(ids[i]) + ": no package metadata (internal)"@,
                });
            if i < rest.len() {
                assert(rest[i] == ids[i]);
            } else {
                assert(b[a.len() as int] == f);
            }
        }
    }
}

/// Each thing that was judged and failed has its failure in the list, and nothing else is in
/// it.
pub proof fn each_judged_failure_is_listed<V>(js: Seq<(V, JudgementView)>, f: Seq<char>)
    ensures
        failures_in(js).contains(f) <==> exists|i: int| 0 <= i < js.len() && (#[trigger] js[i]).1.failure == Some(f),
    decreases js.len(),
{
    if js.len() > 0 {
        let rest = js.drop_last();
        each_judged_failure_is_listed(rest, f);
        let a = failures_in(rest);
        let b = failures_in(js);
        assert(js[js.len() - 1] == js.last());
        if a.contains(f) {
            let i = choose|i: int| 0 <= i < rest.len() && (#[trigger] rest[i]).1.failure == Some(f);
            assert(js[i] == rest[i]);
            let m = choose|m: int| 0 <= m < a.len() && a[m] == f;
            assert(b[m] == f);
        }
        if b.contains(f) && !a.contains(f) {
            let m = choose|m: int| 0 <= m < b.len() && b[m] == f;
            if m < a.len() {
                assert(a[m] == f);
            }
        }
        if exists|i: int| 0 <= i < js.len() && (#[trigger] js[i]).1.failure == Some(f) {
            let i = choose|i: int| 0 <= i < js.len() && (#[trigger] js[i]).1.failure == Some(f);
            if i < rest.len() {
                assert(rest[i] == js[i]);
            } else {
                assert(b[a.len() as int] == f);
            }
        }
    }
}

/// What stands under a license is exactly what was judged with that license among those
/// chosen for it.
pub proof fn under_a_license_stands_what_chose_it<V>(js: Seq<(V, JudgementView)>, lic: Seq<char>, v: V)
    ensures
        licensed(js, lic).contains(v) <==> exists|i: int|
            0 <= i < js.len() && (#[trigger] js[i]).0 == v && (js[i].1.chosen matches Some(c) && c.contains(lic)),
        licensed(js, lic).len() <= js.len(),
    decreases js.len(),
{
    if js.len() > 0 {
        let rest = js.drop_last();
        under_a_license_stands_what_chose_it(rest, lic, v);
        let a = licensed(rest, lic);
        let b = licensed(js, lic);
        assert(js[js.len() - 1] == js.last());
        if a.contains(v) {
            let i = choose|i: int|
                0 <= i < rest.len() && (#[trigger] rest[i]).0 == v && (rest[i].1.chosen matches Some(c) && c.contains(lic));
            assert(js[i] == rest[i]);
            let m = choose|m: int| 0 <= m < a.len() && a[m] == v;
            assert(b[m] == v);
        }
        if b.contains(v) && !a.contains(v) {
            let m = choose|m: int| 0 <= m < b.len() && b[m] == v;
            if m < a.len() {
                assert(a[m] == v);
            }
        }
        if exists|i: int|
            0 <= i < js.len() && (#[trigger] js[i]).0 == v && (js[i].1.chosen matches Some(c) && c.contains(lic)) {
            let i = choose|i: int|
                0 <= i < js.len() && (#[trigger] js[i]).0 == v && (js[i].1.chosen matches Some(c) && c.contains(lic));
            if i < rest.len() {
                assert(rest[i] == js[i]);
            } else {
                assert(b[a.len() as int] == v);
            }
        }
    }
}

/// What is attributed at all is exactly what was judged with a choice, in order.
pub proof fn attributed_is_what_has_a_choice<V>(js: Seq<(V, JudgementView)>, v: V, c: Seq<Seq<char>>)
    ensures
        attributed(js).contains((v, c)) <==> exists|i: int|
            0 <= i < js.len() && (#[trigger] js[i]).0 == v && js[i].1.chosen == Some(c),
    decreases js.len(),
{
    if js.len() > 0 {
        let rest = js.drop_last();
        attributed_is_what_has_a_choice(rest, v, c);
        let a = attributed(rest);
        let b = attributed(js);
        assert(js[js.len() - 1] == js.last());
        if a.contains((v, c)) {
            let i = choose|i: int| 0 <= i < rest.len() && (#[trigger] rest[i]).0 == v && rest[i].1.chosen == Some(c);
            assert(js[i] == rest[i]);
            let m = choose|m: int| 0 <= m < a.len() && a[m] == (v, c);
            assert(b[m] == (v, c));
        }
        if b.contains((v, c)) && !a.contains((v, c)) {
            let m = choose|m: int| 0 <= m < b.len() && b[m] == (v, c);
            if m < a.len() {
                assert(a[m] == (v, c));
            }
        }
        if exists|i: int| 0 <= i < js.len() && (#[trigger] js[i]).0 == v && js[i].1.chosen == Some(c) {
            let i = choose|i: int| 0 <= i < js.len() && (#[trigger] js[i]).0 == v && js[i].1.chosen == Some(c);
            if i < rest.len() {
                assert(rest[i] == js[i]);
            } else {
                assert(b[a.len() as int] == (v, c));
            }
        }
    }
}

/// What was judged of packages is each dependency's package with its judgement, and nothing
/// else.
pub proof fn each_package_is_judged(policy: PolicyView, packages: Seq<PackageView>, ids: Seq<Seq<char>>, p: PackageView, j: JudgementView)
    ensures
        judged_packages(policy, packages, ids).contains((p, j)) <==> j == package_judgement(policy, p) && exists|i: int|
            0 <= i < ids.len() && package_at(packages, #[trigger] ids[i]) == Some(p),
    decreases ids.len(),
{
    if ids.len() > 0 {
        let rest = ids.drop_last();
        each_package_is_judged(policy, packages, rest, p, j);
        let a = judged_packages(policy, packages, rest);
        let b = judged_packages(policy, packages, ids);
        let v = (p, j);
        assert(ids[ids.len() - 1] == ids.last());
        if a.contains(v) {
            let i = choose|i: int| 0 <= i < rest.len() && package_at(packages, #[trigger] rest[i]) == Some(p);
            assert(ids[i] == rest[i]);
            let m = choose|m: int| 0 <= m < a.len() && a[m] == v;
            assert(b[m] == v);
        }
        if b.contains(v) && !a.contains(v) {
            let m = choose|m: int| 0 <= m < b.len() && b[m] == v;
            if m < a.len() {
                assert(a[m] == v);
            }
        }
        if j == package_judgement(policy, p) && exists|i: int| 0 <= i < ids.len() && package_at(packages, #[trigger] ids[i]) == Some(p) {
            let i = choose|i: int| 0 <= i < ids.len() && package_at(packages, #[trigger] ids[i]) == Some(p);
            if i < rest.len() {
                assert(rest[i] == ids[i]);
            } else {
                assert(b[a.len() as int] == v);
            }
        }
    }
}

} // verus!
