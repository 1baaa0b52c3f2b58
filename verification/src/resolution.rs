//! Everything that resolving the licenses produced, for the renderers.

use vstd::prelude::*;
use vstd::string::*;
use crate::config::{Extra, ExtraView};
use crate::graph::{find_package, package_at, Package, PackageView};
use crate::harvest::{author_name, display_author, Extras, ExtrasView};
use crate::sets::{add_text, in_order, keys_of, sorted, sorted_is_in_order, Table};
use crate::text::{before, cat2, owned, precedes, precedes_irreflexive, precedes_total, precedes_transitive, same};
use crate::versions::{not_after, semver_le};

verus! {

/// Everything that resolving the licenses produced.
pub struct Resolution<'a> {
    /// the ids of the attributed packages, in ascending order
    pub deps: &'a Vec<String>,
    /// the packages of the graph
    pub packages: &'a Vec<Package>,
    /// the expression that is used for a package, by id
    pub effective: &'a Table<String>,
    /// the licenses that a package is attributed under, by id
    pub chosen_of: &'a Table<Vec<String>>,
    /// the packages that are attributed under a license
    pub by_license: &'a Table<Vec<&'a Package>>,
    /// the extra entries that are attributed under a license
    pub extra_by_license: &'a Table<Vec<&'a Extra>>,
    /// the extra entries, each with the licenses that it is attributed under
    pub extra_chosen: &'a Vec<(&'a Extra, Vec<String>)>,
    /// the exceptions in use, in ascending order
    pub used_exceptions: &'a Vec<String>,
    /// what the files of a package add, by id
    pub extras: &'a Table<Extras>,
}

/// What a `Resolution` holds.
pub struct ResolutionView {
    pub deps: Seq<Seq<char>>,
    pub packages: Seq<PackageView>,
    pub effective: Seq<(Seq<char>, Seq<char>)>,
    pub chosen_of: Seq<(Seq<char>, Seq<Seq<char>>)>,
    pub by_license: Seq<(Seq<char>, Seq<PackageView>)>,
    pub extra_by_license: Seq<(Seq<char>, Seq<ExtraView>)>,
    pub extra_chosen: Seq<(ExtraView, Seq<Seq<char>>)>,
    pub used_exceptions: Seq<Seq<char>>,
    pub extras: Seq<(Seq<char>, ExtrasView)>,
}

impl<'a> DeepView for Resolution<'a> {
    type V = ResolutionView;

    open spec fn deep_view(&self) -> ResolutionView {
        ResolutionView {
            deps: self.deps.deep_view(),
            packages: self.packages.deep_view(),
            effective: self.effective.deep_view(),
            chosen_of: self.chosen_of.deep_view(),
            by_license: self.by_license.deep_view(),
            extra_by_license: self.extra_by_license.deep_view(),
            extra_chosen: self.extra_chosen.deep_view(),
            used_exceptions: self.used_exceptions.deep_view(),
            extras: self.extras.deep_view(),
        }
    }
}

// ---------------------------------------------------------------- license ids

/// The ids of all licenses in use, in ascending order: those of packages and those of
/// extra entries alike.
pub open spec fn license_ids<P, X>(
    by_license: Seq<(Seq<char>, P)>,
    extra_by_license: Seq<(Seq<char>, X)>,
) -> Seq<Seq<char>> {
    in_order(keys_of(by_license).to_set().union(keys_of(extra_by_license).to_set()))
}

/// Adds the keys of a table to a set.
pub fn add_keys<V: DeepView>(set: &mut Vec<String>, t: &Table<V>)
    requires
        sorted(old(set).deep_view()),
    ensures
        sorted(final(set).deep_view()),
        final(set).deep_view().to_set() == old(set).deep_view().to_set().union(
            keys_of(t.deep_view()).to_set(),
        ),
{
    let ghost s = set.deep_view();
    let ghost ks = keys_of(t.deep_view());
    let mut i: usize = 0;
    assert(ks.take(0).to_set() =~= Set::<Seq<char>>::empty());
    assert(s.to_set().union(ks.take(0).to_set()) =~= s.to_set());
    while i < t.rows.len()
        invariant
            ks == keys_of(t.deep_view()),
            i <= t.rows@.len(),
            sorted(set.deep_view()),
            set.deep_view().to_set() == s.to_set().union(ks.take(i as int).to_set()),
        decreases t.rows.len() - i,
    {
        add_text(set, t.rows[i].0.as_str());
        proof {
            let k = ks[i as int];
            assert(k == t.rows@[i as int].0@);
            assert(ks.take(i + 1) =~= ks.take(i as int).push(k));
            ks.take(i as int).lemma_push_to_set_commute(k);
            assert(s.to_set().union(ks.take(i as int).to_set()).insert(k) =~= s.to_set().union(
                ks.take(i + 1).to_set(),
            ));
        }
        i += 1;
    }
    assert(ks.take(i as int) =~= ks);
}

/// The ids of all licenses in use, in ascending order.
pub fn all_ids<P: DeepView, X: DeepView>(
    by_license: &Table<P>,
    extra_by_license: &Table<X>,
) -> (r: Vec<String>)
    ensures
        r.deep_view() == license_ids(by_license.deep_view(), extra_by_license.deep_view()),
        sorted(r.deep_view()),
        r.deep_view().to_set() == keys_of(by_license.deep_view()).to_set().union(
            keys_of(extra_by_license.deep_view()).to_set(),
        ),
{
    let mut ids: Vec<String> = Vec::new();
    assert(ids.deep_view().to_set() =~= Set::<Seq<char>>::empty());
    add_keys(&mut ids, by_license);
    add_keys(&mut ids, extra_by_license);
    proof {
        let want = keys_of(by_license.deep_view()).to_set().union(
            keys_of(extra_by_license.deep_view()).to_set(),
        );
        assert(ids.deep_view().to_set() =~= want);
        sorted_is_in_order(ids.deep_view());
    }
    ids
}

// ---------------------------------------------------------------- order of packages

/// A package does not come after another: by name, then by version.
pub open spec fn not_behind(a: PackageView, b: PackageView) -> bool {
    precedes(a.name, b.name) || (a.name == b.name && semver_le(a.version, b.version))
}

/// A package put into a list behind all that do not come after it.
pub open spec fn put_in(s: Seq<PackageView>, p: PackageView) -> Seq<PackageView>
    decreases s.len(),
{
    if s.len() == 0 || not_behind(s.last(), p) {
        s.push(p)
    } else {
        put_in(s.drop_last(), p).push(s.last())
    }
}

/// The packages by name and version; those that are equal in both keep their order.
pub open spec fn arranged(s: Seq<PackageView>) -> Seq<PackageView>
    decreases s.len(),
{
    if s.len() == 0 {
        Seq::empty()
    } else {
        put_in(arranged(s.drop_last()), s.last())
    }
}

/// No package comes after one that stands behind it.
pub open spec fn in_line(s: Seq<PackageView>) -> bool {
    forall|i: int, j: int| 0 <= i < j < s.len() ==> not_behind(#[trigger] s[i], #[trigger] s[j])
}

/// Where a package is put: behind the first `i`, of which the last does not come after it,
/// and before the others, which all do.
proof fn put_in_is_insert(s: Seq<PackageView>, p: PackageView, i: int)
    requires
        0 <= i <= s.len(),
        i > 0 ==> not_behind(s[i - 1], p),
        forall|j: int| i <= j < s.len() ==> !not_behind(#[trigger] s[j], p),
    ensures
        put_in(s, p) == s.insert(i, p),
    decreases s.len(),
{
    if i == s.len() {
        assert(s.insert(i, p) =~= s.push(p));
    } else {
        assert(!not_behind(s[s.len() - 1], p));
        let t = s.drop_last();
        put_in_is_insert(t, p, i);
        assert(s.insert(i, p) =~= t.insert(i, p).push(s.last()));
    }
}

/// Putting a package into a list adds that package and drops none.
proof fn put_in_adds(s: Seq<PackageView>, p: PackageView, x: PackageView)
    ensures
        put_in(s, p).contains(x) <==> s.contains(x) || x == p,
    decreases s.len(),
{
    let t = put_in(s, p);
    if s.len() == 0 || not_behind(s.last(), p) {
        if s.contains(x) {
            let k = choose|k: int| 0 <= k < s.len() && s[k] == x;
            assert(t[k] == x);
        }
        if x == p {
            assert(t[s.len() as int] == x);
        }
    } else {
        let rest = s.drop_last();
        put_in_adds(rest, p, x);
        let u = put_in(rest, p);
        if u.contains(x) {
            let k = choose|k: int| 0 <= k < u.len() && u[k] == x;
            assert(t[k] == x);
        }
        if s.contains(x) && x != s.last() {
            let k = choose|k: int| 0 <= k < s.len() && s[k] == x;
            assert(rest[k] == x);
        }
        if rest.contains(x) {
            let k = choose|k: int| 0 <= k < rest.len() && rest[k] == x;
            assert(s[k] == x);
        }
        if x == s.last() {
            assert(t[u.len() as int] == x);
            assert(s[s.len() - 1] == x);
        }
        if t.contains(x) && x != s.last() {
            let k = choose|k: int| 0 <= k < t.len() && t[k] == x;
            assert(u[k] == x);
        }
    }
}

/// Sorting adds and drops no package.
pub proof fn arranged_holds_the_same(s: Seq<PackageView>, x: PackageView)
    ensures
        arranged(s).contains(x) <==> s.contains(x),
    decreases s.len(),
{
    if s.len() > 0 {
        let rest = s.drop_last();
        arranged_holds_the_same(rest, x);
        put_in_adds(arranged(rest), s.last(), x);
        if s.contains(x) && x != s.last() {
            let k = choose|k: int| 0 <= k < s.len() && s[k] == x;
            assert(rest[k] == x);
        }
        if rest.contains(x) {
            let k = choose|k: int| 0 <= k < rest.len() && rest[k] == x;
            assert(s[k] == x);
        }
        if x == s.last() {
            assert(s[s.len() - 1] == x);
        }
    }
}

/// Of the packages with an id, at least one is kept, and only those that were there are.
pub proof fn deduped_keeps_an_id(s: Seq<PackageView>, p: PackageView) -> (q: PackageView)
    requires
        s.contains(p),
    ensures
        q.id == p.id,
        s.contains(q),
        deduped(s).contains(q),
    decreases s.len(),
{
    let rest = s.drop_last();
    let d = deduped(rest);
    let l = s.last();
    if p == l {
        if d.len() > 0 && d.last().id == l.id {
            let q = d.last();
            assert(d[d.len() - 1] == q);
            deduped_is_part(rest, q);
            let k = choose|k: int| 0 <= k < rest.len() && rest[k] == q;
            assert(s[k] == q);
            q
        } else {
            assert(d.push(l)[d.len() as int] == l);
            assert(s[s.len() - 1] == l);
            l
        }
    } else {
        let k = choose|k: int| 0 <= k < s.len() && s[k] == p;
        assert(rest[k] == p);
        let q = deduped_keeps_an_id(rest, p);
        let m = choose|m: int| 0 <= m < rest.len() && rest[m] == q;
        assert(s[m] == q);
        let n = choose|n: int| 0 <= n < d.len() && d[n] == q;
        if !(d.len() > 0 && d.last().id == l.id) {
            assert(d.push(l)[n] == q);
        }
        q
    }
}

/// What is kept was there.
proof fn deduped_is_part(s: Seq<PackageView>, q: PackageView)
    requires
        deduped(s).contains(q),
    ensures
        s.contains(q),
    decreases s.len(),
{
    if s.len() > 0 {
        let rest = s.drop_last();
        let d = deduped(rest);
        if d.contains(q) {
            deduped_is_part(rest, q);
            let k = choose|k: int| 0 <= k < rest.len() && rest[k] == q;
            assert(s[k] == q);
        } else {
            let t = deduped(s);
            let k = choose|k: int| 0 <= k < t.len() && t[k] == q;
            if k < d.len() {
                assert(d[k] == q);
            }
            assert(s[s.len() - 1] == q);
        }
    }
}

/// Whether a package does not come after another. The order is total: it holds one way
/// at least, and what does not come after the first does not come after the second.
pub fn is_not_behind(a: &Package, b: &Package) -> (r: bool)
    ensures
        r == not_behind(a.deep_view(), b.deep_view()),
        r || not_behind(b.deep_view(), a.deep_view()),
        r ==> forall|c: PackageView| #[trigger]
            not_behind(c, a.deep_view()) ==> not_behind(c, b.deep_view()),
{
    let ghost x = a.deep_view();
    let ghost y = b.deep_view();
    if before(a.name.as_str(), b.name.as_str()) {
        assert forall|c: PackageView| #[trigger] not_behind(c, x) implies not_behind(c, y) by {
            if precedes(c.name, x.name) {
                precedes_transitive(c.name, x.name, y.name);
            }
        }
        return true;
    }
    if same(a.name.as_str(), b.name.as_str()) {
        let r = not_after(a.version.as_str(), b.version.as_str());
        proof {
            precedes_irreflexive(x.name);
            if r {
                assert forall|c: PackageView| #[trigger] not_behind(c, x) implies not_behind(
                    c,
                    y,
                ) by {
                    if !precedes(c.name, x.name) {
                        assert(semver_le(c.version, x.version));
                    }
                }
            }
        }
        return r;
    }
    proof {
        precedes_total(x.name, y.name);
    }
    false
}

/// Sorts packages by name and version; those that are equal in both keep their order.
pub fn arrange<'a>(ps: &Vec<&'a Package>) -> (r: Vec<&'a Package>)
    ensures
        r.deep_view() == arranged(ps.deep_view()),
        in_line(r.deep_view()),
        r.deep_view().to_multiset() == ps.deep_view().to_multiset(),
{
    let ghost all = ps.deep_view();
    let mut out: Vec<&'a Package> = Vec::new();
    let mut k: usize = 0;
    assert(out.deep_view() =~= arranged(all.take(0)));
    assert(all.take(0) =~= out.deep_view());
    while k < ps.len()
        invariant
            all == ps.deep_view(),
            k <= ps@.len(),
            out.deep_view() == arranged(all.take(k as int)),
            in_line(out.deep_view()),
            out.deep_view().to_multiset() == all.take(k as int).to_multiset(),
        decreases ps.len() - k,
    {
        let p = ps[k];
        let ghost s = out.deep_view();
        let ghost x = p.deep_view();
        let mut i: usize = out.len();
        while i > 0 && !is_not_behind(out[i - 1], p)
            invariant
                out.deep_view() == s,
                x == p.deep_view(),
                i <= out@.len(),
                forall|j: int|
                    i <= j < s.len() ==> !not_behind(#[trigger] s[j], x) && not_behind(x, s[j]),
            decreases i,
        {
            assert(out@[i - 1].deep_view() == s[i - 1]);
            i -= 1;
        }
        if i > 0 {
            let ok = is_not_behind(out[i - 1], p);
            assert(out@[i - 1].deep_view() == s[i - 1]);
            assert(ok);
        }
        out.insert(i, p);
        proof {
            let t = s.insert(i as int, x);
            assert(out.deep_view() =~= t);
            assert forall|a: int, b: int| 0 <= a < b < t.len() implies not_behind(
                #[trigger] t[a],
                #[trigger] t[b],
            ) by {
                if b == i {
                    assert(t[a] == s[a]);
                    if a < i - 1 {
                        assert(not_behind(s[a], s[i - 1]));
                    }
                } else if a == i {
                    assert(t[b] == s[b - 1]);
                } else {
                    let a0 = if a < i { a } else { a - 1 };
                    let b0 = if b < i { b } else { b - 1 };
                    assert(t[a] == s[a0] && t[b] == s[b0]);
                }
            }
            put_in_is_insert(s, x, i as int);
            let upto = all.take(k + 1);
            assert(upto.drop_last() =~= all.take(k as int));
            assert(upto.last() == x);
            vstd::seq_lib::to_multiset_insert(s, i as int, x);
            assert(upto =~= all.take(k as int).push(x));
            vstd::seq_lib::to_multiset_build(all.take(k as int), x);
        }
        k += 1;
    }
    assert(all.take(k as int) =~= all);
    out
}

/// The packages without one whose id is that of the one kept before it.
pub open spec fn deduped(s: Seq<PackageView>) -> Seq<PackageView>
    decreases s.len(),
{
    if s.len() == 0 {
        Seq::empty()
    } else {
        let rest = deduped(s.drop_last());
        if rest.len() > 0 && rest.last().id == s.last().id {
            rest
        } else {
            rest.push(s.last())
        }
    }
}

/// Drops a package whose id is that of the one kept before it.
pub fn dedup<'a>(ps: &Vec<&'a Package>) -> (r: Vec<&'a Package>)
    ensures
        r.deep_view() == deduped(ps.deep_view()),
{
    let ghost all = ps.deep_view();
    let mut out: Vec<&'a Package> = Vec::new();
    let mut i: usize = 0;
    assert(out.deep_view() =~= deduped(all.take(0)));
    while i < ps.len()
        invariant
            all == ps.deep_view(),
            i <= ps@.len(),
            out.deep_view() == deduped(all.take(i as int)),
        decreases ps.len() - i,
    {
        let p = ps[i];
        let ghost s = out.deep_view();
        let ghost upto = all.take(i + 1);
        assert(upto.drop_last() =~= all.take(i as int));
        assert(upto.last() == p.deep_view());
        let n: usize = out.len();
        let again = n > 0 && same(out[n - 1].id.as_str(), p.id.as_str());
        assert(n > 0 ==> s.last() == out@[n - 1].deep_view());
        if !again {
            out.push(p);
            assert(out.deep_view() =~= s.push(p.deep_view()));
        }
        i += 1;
    }
    assert(all.take(i as int) =~= all);
    out
}

/// The packages of a list of ids, in order; an id without a package is left out.
pub open spec fn packages_of(packages: Seq<PackageView>, ids: Seq<Seq<char>>) -> Seq<PackageView>
    decreases ids.len(),
{
    if ids.len() == 0 {
        Seq::empty()
    } else {
        match package_at(packages, ids.last()) {
            Some(p) => packages_of(packages, ids.drop_last()).push(p),
            None => packages_of(packages, ids.drop_last()),
        }
    }
}

/// The packages of a list of ids, in order.
pub fn select_packages<'a>(packages: &'a Vec<Package>, ids: &Vec<String>) -> (r: Vec<&'a Package>)
    ensures
        r.deep_view() == packages_of(packages.deep_view(), ids.deep_view()),
{
    let ghost pv = packages.deep_view();
    let ghost all = ids.deep_view();
    let mut out: Vec<&'a Package> = Vec::new();
    let mut i: usize = 0;
    assert(out.deep_view() =~= packages_of(pv, all.take(0)));
    while i < ids.len()
        invariant
            pv == packages.deep_view(),
            all == ids.deep_view(),
            i <= ids@.len(),
            out.deep_view() == packages_of(pv, all.take(i as int)),
        decreases ids.len() - i,
    {
        let ghost s = out.deep_view();
        let ghost upto = all.take(i + 1);
        assert(upto.drop_last() =~= all.take(i as int));
        assert(upto.last() == ids@[i as int]@);
        if let Some(k) = find_package(packages, ids[i].as_str()) {
            let p = &packages[k];
            out.push(p);
            assert(out.deep_view() =~= s.push(p.deep_view()));
        }
        i += 1;
    }
    assert(all.take(i as int) =~= all);
    out
}

// ---------------------------------------------------------------- shared pieces

/// Where a package comes from: its repository, or else its page on crates.io.
pub open spec fn source_url(p: PackageView) -> Seq<char> {
    match p.repository {
        Some(u) => u,
        None => "https://crates.io/crates/"@ + p.name,
    }
}

/// Where a package comes from.
pub fn url_of(p: &Package) -> (r: String)
    ensures
        r@ == source_url(p.deep_view()),
{
    match &p.repository {
        Some(u) => owned(u.as_str()),
        None => cat2("https://crates.io/crates/", p.name.as_str()),
    }
}

/// The names of the authors that have one, without addresses.
pub open spec fn shown_authors(authors: Seq<Seq<char>>) -> Seq<Seq<char>>
    decreases authors.len(),
{
    if authors.len() == 0 {
        Seq::empty()
    } else if author_name(authors.last()).len() > 0 {
        shown_authors(authors.drop_last()).push(author_name(authors.last()))
    } else {
        shown_authors(authors.drop_last())
    }
}

/// The names of the authors that have one, without addresses.
pub fn author_list(authors: &Vec<String>) -> (r: Vec<String>)
    ensures
        r.deep_view() == shown_authors(authors.deep_view()),
{
    let ghost all = authors.deep_view();
    let mut out: Vec<String> = Vec::new();
    let mut i: usize = 0;
    assert(out.deep_view() =~= shown_authors(all.take(0)));
    while i < authors.len()
        invariant
            all == authors.deep_view(),
            i <= authors@.len(),
            out.deep_view() == shown_authors(all.take(i as int)),
        decreases authors.len() - i,
    {
        let ghost s = out.deep_view();
        let ghost upto = all.take(i + 1);
        assert(upto.drop_last() =~= all.take(i as int));
        assert(upto.last() == authors@[i as int]@);
        let name = display_author(authors[i].as_str());
        if !name.as_str().is_empty() {
            let ghost n = name@;
            out.push(name);
            assert(out.deep_view() =~= s.push(n));
        }
        i += 1;
    }
    assert(all.take(i as int) =~= all);
    out
}

} // verus!
