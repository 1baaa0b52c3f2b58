//! How packages and authors are listed.

use vstd::prelude::*;
use crate::graph::{package_at, PackageView};
use crate::harvest::author_name;
use crate::resolution::{
    arranged, arranged_holds_the_same, deduped, in_line, not_behind, packages_of, put_in,
    shown_authors, source_url,
};
use crate::text::{precedes, precedes_asymmetric, precedes_total, precedes_transitive};
use crate::versions::semver_le;

verus! {

/// The order of versions takes in any two and can be chained.
pub open spec fn versions_are_ordered() -> bool {
    &&& forall|a: Seq<char>, b: Seq<char>| #[trigger] semver_le(a, b) || semver_le(b, a)
    &&& forall|a: Seq<char>, b: Seq<char>, c: Seq<char>| #[trigger] semver_le(a, b) && #[trigger] semver_le(b, c) ==> semver_le(a, c)
}

/// Packages are ordered by name, and those of one name by version.
pub proof fn names_then_versions(a: PackageView, b: PackageView)
    ensures
        precedes(a.name, b.name) ==> not_behind(a, b),
        precedes(b.name, a.name) ==> !not_behind(a, b),
        a.name == b.name ==> (not_behind(a, b) <==> semver_le(a.version, b.version)),
{
    if precedes(b.name, a.name) {
        precedes_asymmetric(b.name, a.name);
    }
}

proof fn put_in_counts(s: Seq<PackageView>, p: PackageView)
    ensures
        put_in(s, p).to_multiset() == s.to_multiset().insert(p),
        put_in(s, p).len() == s.len() + 1,
    decreases s.len(),
{
    broadcast use vstd::seq_lib::group_to_multiset_ensures;

    if s.len() == 0 || not_behind(s.last(), p) {
    } else {
        put_in_counts(s.drop_last(), p);
        assert(s =~= s.drop_last().push(s.last()));
        assert(put_in(s, p).to_multiset() =~= s.to_multiset().insert(p));
    }
}

/// Putting packages in order drops none and adds none.
pub proof fn arranging_keeps_each(s: Seq<PackageView>)
    ensures
        arranged(s).to_multiset() == s.to_multiset(),
        arranged(s).len() == s.len(),
    decreases s.len(),
{
    broadcast use vstd::seq_lib::group_to_multiset_ensures;

    if s.len() > 0 {
        arranging_keeps_each(s.drop_last());
        put_in_counts(arranged(s.drop_last()), s.last());
        assert(s =~= s.drop_last().push(s.last()));
        assert(arranged(s).to_multiset() =~= s.to_multiset());
    } else {
        assert(s =~= Seq::<PackageView>::empty());
    }
}

/// A package that goes behind all others, or beside them, is listed last: those that the
/// order does not tell apart stay as they came.
pub proof fn ties_stay_as_they_came(s: Seq<PackageView>, p: PackageView)
    requires
        forall|i: int| 0 <= i < s.len() ==> not_behind(#[trigger] s[i], p),
    ensures
        arranged(s.push(p)) == arranged(s).push(p),
{
    assert(s.push(p).drop_last() =~= s);
    let t = arranged(s);
    if t.len() > 0 {
        arranged_holds_the_same(s, t.last());
        assert(t.contains(t.last()));
        let i = choose|i: int| 0 <= i < s.len() && s[i] == t.last();
        assert(not_behind(s[i], p));
    }
}

proof fn put_in_keeps_line(s: Seq<PackageView>, p: PackageView)
    requires
        in_line(s),
        versions_are_ordered(),
    ensures
        in_line(put_in(s, p)),
        forall|x: PackageView| #[trigger] put_in(s, p).contains(x) ==> s.contains(x) || x == p,
    decreases s.len(),
{
    if s.len() == 0 {
        assert(put_in(s, p) =~= seq![p]);
    } else if not_behind(s.last(), p) {
        let t = s.push(p);
        assert forall|i: int, j: int| 0 <= i < j < t.len() implies not_behind(#[trigger] t[i], #[trigger] t[j]) by {
            if j == s.len() {
                if i < s.len() - 1 {
                    chained(s[i], s.last(), p);
                }
            }
        }
        assert forall|x: PackageView| #[trigger] t.contains(x) implies s.contains(x) || x == p by {
            let k = choose|k: int| 0 <= k < t.len() && t[k] == x;
            if k < s.len() {
                assert(s[k] == x);
            }
        }
    } else {
        let rest = s.drop_last();
        put_in_keeps_line(rest, p);
        let u = put_in(rest, p);
        let t = u.push(s.last());
        either_way(s.last(), p);
        assert forall|i: int, j: int| 0 <= i < j < t.len() implies not_behind(#[trigger] t[i], #[trigger] t[j]) by {
            if j == u.len() {
                assert(u.contains(u[i]));
                if rest.contains(u[i]) {
                    let k = choose|k: int| 0 <= k < rest.len() && rest[k] == u[i];
                    assert(not_behind(s[k], s[s.len() - 1]));
                }
            }
        }
        assert forall|x: PackageView| #[trigger] t.contains(x) implies s.contains(x) || x == p by {
            let k = choose|k: int| 0 <= k < t.len() && t[k] == x;
            if k < u.len() {
                assert(u.contains(x));
                if rest.contains(x) {
                    let m = choose|m: int| 0 <= m < rest.len() && rest[m] == x;
                    assert(s[m] == x);
                }
            } else {
                assert(s[s.len() - 1] == x);
            }
        }
    }
}

proof fn chained(a: PackageView, b: PackageView, c: PackageView)
    requires
        not_behind(a, b),
        not_behind(b, c),
        versions_are_ordered(),
    ensures
        not_behind(a, c),
{
    if precedes(a.name, b.name) && precedes(b.name, c.name) {
        precedes_transitive(a.name, b.name, c.name);
    } else if a.name == b.name && b.name == c.name {
        assert(semver_le(a.version, b.version) && semver_le(b.version, c.version));
    }
}

proof fn either_way(a: PackageView, b: PackageView)
    requires
        versions_are_ordered(),
    ensures
        not_behind(a, b) || not_behind(b, a),
{
    precedes_total(a.name, b.name);
    assert(semver_le(a.version, b.version) || semver_le(b.version, a.version));
}

/// Packages come out in order.
pub proof fn arranging_puts_in_line(s: Seq<PackageView>)
    requires
        versions_are_ordered(),
    ensures
        forall|i: int, j: int|
            0 <= i < j < arranged(s).len() ==> {
                let a = #[trigger] arranged(s)[i];
                let b = #[trigger] arranged(s)[j];
                precedes(a.name, b.name) || a.name == b.name && semver_le(a.version, b.version)
            },
    decreases s.len(),
{
    arranged_in_line(s);
}

proof fn arranged_in_line(s: Seq<PackageView>)
    requires
        versions_are_ordered(),
    ensures
        in_line(arranged(s)),
    decreases s.len(),
{
    if s.len() > 0 {
        arranged_in_line(s.drop_last());
        put_in_keeps_line(arranged(s.drop_last()), s.last());
    }
}

proof fn dedup_keeps_last_id(s: Seq<PackageView>)
    requires
        s.len() > 0,
    ensures
        deduped(s).len() > 0,
        deduped(s).last().id == s.last().id,
    decreases s.len(),
{
}

/// Of packages with one id that stand side by side only the first is kept; where the ids
/// differ, both are.
pub proof fn repeated_ids_are_dropped(s: Seq<PackageView>, p: PackageView)
    ensures
        deduped(Seq::empty()) == Seq::<PackageView>::empty(),
        s.len() == 0 || s.last().id != p.id ==> deduped(s.push(p)) == deduped(s).push(p),
        s.len() > 0 && s.last().id == p.id ==> deduped(s.push(p)) == deduped(s),
{
    assert(s.push(p).drop_last() =~= s);
    if s.len() > 0 {
        dedup_keeps_last_id(s);
    }
}

/// The packages of two lists of ids are those of the one and of the other.
pub proof fn packages_of_both_lists(packages: Seq<PackageView>, a: Seq<Seq<char>>, b: Seq<Seq<char>>)
    ensures
        packages_of(packages, a + b) == packages_of(packages, a) + packages_of(packages, b),
    decreases b.len(),
{
    if b.len() == 0 {
        assert(a + b =~= a);
        assert(packages_of(packages, a) + packages_of(packages, b) =~= packages_of(packages, a));
    } else {
        packages_of_both_lists(packages, a, b.drop_last());
        assert((a + b).drop_last() =~= a + b.drop_last());
        assert(packages_of(packages, a + b) =~= packages_of(packages, a) + packages_of(packages, b));
    }
}

/// An id stands for its package, and for nothing where the graph has none of that id.
pub proof fn an_id_stands_for_its_package(packages: Seq<PackageView>, id: Seq<char>)
    ensures
        packages_of(packages, seq![id]) == match package_at(packages, id) {
            Some(p) => seq![p],
            None => Seq::empty(),
        },
{
    reveal_with_fuel(packages_of, 2);
    assert(seq![id].drop_last() =~= Seq::<Seq<char>>::empty());
    if let Some(p) = package_at(packages, id) {
        assert(packages_of(packages, seq![id]) =~= seq![p]);
    }
}

/// The package of every id is selected.
pub proof fn package_of_each_id(packages: Seq<PackageView>, ids: Seq<Seq<char>>, i: int)
    requires
        0 <= i < ids.len(),
        package_at(packages, ids[i]) is Some,
    ensures
        packages_of(packages, ids).contains(package_at(packages, ids[i])->0),
{
    let a = ids.take(i);
    let b = ids.skip(i + 1);
    let p = package_at(packages, ids[i])->0;
    assert(ids =~= a + seq![ids[i]] + b);
    packages_of_both_lists(packages, a + seq![ids[i]], b);
    packages_of_both_lists(packages, a, seq![ids[i]]);
    an_id_stands_for_its_package(packages, ids[i]);
    let front = packages_of(packages, a);
    let all = front + seq![p] + packages_of(packages, b);
    assert(all[front.len() as int] == p);
}

/// The address of a package is its repository, or its page on crates.io.
pub proof fn address_of_a_package(p: PackageView)
    ensures
        p.repository matches Some(u) ==> source_url(p) == u,
        p.repository is None ==> source_url(p) == "https://crates.io/crates/"@ + p.name,
{
}

/// The names of the authors are shown in order, without the entries that leave nothing.
pub proof fn authors_that_have_a_name(a: Seq<Seq<char>>, b: Seq<Seq<char>>, author: Seq<char>)
    ensures
        shown_authors(a + b) == shown_authors(a) + shown_authors(b),
        shown_authors(seq![author]) == if author_name(author).len() > 0 {
            seq![author_name(author)]
        } else {
            Seq::empty()
        },
        shown_authors(Seq::empty()) == Seq::<Seq<char>>::empty(),
    decreases b.len(),
{
    if b.len() == 0 {
        assert(a + b =~= a);
        assert(shown_authors(a) + shown_authors(b) =~= shown_authors(a));
    } else {
        authors_that_have_a_name(a, b.drop_last(), author);
        assert((a + b).drop_last() =~= a + b.drop_last());
        assert(shown_authors(a + b) =~= shown_authors(a) + shown_authors(b));
    }
    reveal_with_fuel(shown_authors, 2);
    assert(seq![author].drop_last() =~= Seq::<Seq<char>>::empty());
    if author_name(author).len() > 0 {
        assert(shown_authors(seq![author]) =~= seq![author_name(author)]);
    }
}

} // verus!
