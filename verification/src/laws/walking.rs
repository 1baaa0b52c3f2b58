//! Which packages a walk over the dependency graph reaches and attributes.

use vstd::prelude::*;
use crate::graph::{
    deps_at, followed, is_dep, is_path, members_named, named_roots, package_at, reached, roots_of,
    step_reaches, steps, wanted_kind, DepKind, DepView, GraphNodeView, GraphView, PackageView, Walk,
};

verus! {

// ---------------------------------------------------------------- lookups

/// A package is looked up by its id; should several have it, the last one counts, and
/// without any there is none.
pub proof fn last_package_with_the_id_counts(packages: Seq<PackageView>, id: Seq<char>, i: int)
    requires
        -1 <= i < packages.len(),
        i >= 0 ==> packages[i].id == id,
        forall|j: int| i < j < packages.len() ==> (#[trigger] packages[j]).id != id,
    ensures
        package_at(packages, id) == if i >= 0 {
            Some(packages[i])
        } else {
            None
        },
    decreases packages.len(),
{
    if packages.len() > 0 && i < packages.len() - 1 {
        let t = packages.drop_last();
        assert(packages[packages.len() - 1].id != id);
        assert forall|j: int| i < j < t.len() implies (#[trigger] t[j]).id != id by {
            assert(t[j] == packages[j]);
        }
        last_package_with_the_id_counts(t, id, i);
    }
}

/// The dependencies of a package are those of the last node with its id; without a node
/// there are none.
pub proof fn last_node_with_the_id_counts(nodes: Seq<GraphNodeView>, id: Seq<char>, i: int)
    requires
        -1 <= i < nodes.len(),
        i >= 0 ==> nodes[i].id == id,
        forall|j: int| i < j < nodes.len() ==> (#[trigger] nodes[j]).id != id,
    ensures
        deps_at(nodes, id) == if i >= 0 {
            nodes[i].deps
        } else {
            Seq::empty()
        },
    decreases nodes.len(),
{
    if nodes.len() > 0 && i < nodes.len() - 1 {
        let t = nodes.drop_last();
        assert(nodes[nodes.len() - 1].id != id);
        assert forall|j: int| i < j < t.len() implies (#[trigger] t[j]).id != id by {
            assert(t[j] == nodes[j]);
        }
        last_node_with_the_id_counts(t, id, i);
    }
}

/// Where the last node with an id stands.
proof fn node_of(nodes: Seq<GraphNodeView>, id: Seq<char>) -> (n: int)
    ensures
        -1 <= n < nodes.len(),
        n >= 0 ==> nodes[n].id == id,
        forall|j: int| n < j < nodes.len() ==> (#[trigger] nodes[j]).id != id,
    decreases nodes.len(),
{
    if nodes.len() == 0 {
        -1
    } else if nodes.last().id == id {
        nodes.len() - 1
    } else {
        let t = nodes.drop_last();
        let n = node_of(t, id);
        assert forall|j: int| n < j < nodes.len() implies (#[trigger] nodes[j]).id != id by {
            if j < t.len() {
                assert(t[j] == nodes[j]);
            }
        }
        n
    }
}

proof fn package_of(packages: Seq<PackageView>, id: Seq<char>) -> (n: int)
    ensures
        -1 <= n < packages.len(),
        n >= 0 ==> packages[n].id == id,
        forall|j: int| n < j < packages.len() ==> (#[trigger] packages[j]).id != id,
    decreases packages.len(),
{
    if packages.len() == 0 {
        -1
    } else if packages.last().id == id {
        packages.len() - 1
    } else {
        let t = packages.drop_last();
        let n = package_of(t, id);
        assert forall|j: int| n < j < packages.len() implies (#[trigger] packages[j]).id != id by {
            if j < t.len() {
                assert(t[j] == packages[j]);
            }
        }
        n
    }
}

// ---------------------------------------------------------------- the walk

/// Among the kinds of a dependency is one that counts: a normal one, or one that is opted in
/// to.
pub open spec fn has_wanted_kind(w: Walk, d: DepView) -> bool {
    ||| d.kinds.contains(DepKind::Normal)
    ||| w.include_dev && d.kinds.contains(DepKind::Development)
    ||| w.include_build && d.kinds.contains(DepKind::Build)
}

/// A walk reaches each of its roots.
pub proof fn every_root_is_reached(g: GraphView, w: Walk, roots: Seq<Seq<char>>, i: int)
    requires
        0 <= i < roots.len(),
    ensures
        reached(g, w, roots, roots[i]),
{
    let path = seq![roots[i]];
    assert(roots.contains(path[0]));
    assert(is_path(g, w, roots, path));
    assert(path.last() == roots[i]);
}

/// A dependency of which one kind counts is walked to, whatever other kinds it has, unless
/// it is a proc-macro and those are skipped; and it is attributed, unless it is a workspace
/// member, or private and those are skipped.
pub proof fn one_wanted_kind_is_enough(g: GraphView, w: Walk, roots: Seq<Seq<char>>, n: int, i: int)
    requires
        0 <= n < g.nodes.len(),
        0 <= i < g.nodes[n].deps.len(),
        forall|m: int| n < m < g.nodes.len() ==> (#[trigger] g.nodes[m]).id != g.nodes[n].id,
        reached(g, w, roots, g.nodes[n].id),
        has_wanted_kind(w, g.nodes[n].deps[i]),
        w.skip_proc_macros ==> forall|q: int|
            0 <= q < g.packages.len() && (#[trigger] g.packages[q]).id == g.nodes[n].deps[i].pkg ==> !g.packages[q].proc_macro,
    ensures
        reached(g, w, roots, g.nodes[n].deps[i].pkg),
        ({
            let id = g.nodes[n].deps[i].pkg;
            &&& !g.members.contains(id)
            &&& w.skip_private ==> forall|q: int|
                0 <= q < g.packages.len() && (#[trigger] g.packages[q]).id == id ==> g.packages[q].crates_io
        }) ==> is_dep(g, w, roots, g.nodes[n].deps[i].pkg),
{
    let from = g.nodes[n].id;
    let d = g.nodes[n].deps[i];
    last_node_with_the_id_counts(g.nodes, from, n);
    let k = if d.kinds.contains(DepKind::Normal) {
        choose|k: int| 0 <= k < d.kinds.len() && d.kinds[k] == DepKind::Normal
    } else if w.include_dev && d.kinds.contains(DepKind::Development) {
        choose|k: int| 0 <= k < d.kinds.len() && d.kinds[k] == DepKind::Development
    } else {
        choose|k: int| 0 <= k < d.kinds.len() && d.kinds[k] == DepKind::Build
    };
    assert(wanted_kind(w, d.kinds[k]));
    let q = package_of(g.packages, d.pkg);
    last_package_with_the_id_counts(g.packages, d.pkg, q);
    if q >= 0 {
        assert(g.packages[q].id == d.pkg);
    }
    assert(followed(g, w, d));
    assert(deps_at(g.nodes, from)[i] == d);
    assert(steps(g, w, from, d.pkg));
    step_reaches(g, w, roots, from, d.pkg);
}

/// What is attributed is a dependency, of a kind that counts, of something that is reached;
/// it is no workspace member; where private packages are skipped it is none of those, and
/// where proc-macros are skipped it is none of those.
pub proof fn attributed_for_a_wanted_kind(g: GraphView, w: Walk, roots: Seq<Seq<char>>, id: Seq<char>) -> (at: (int, int))
    requires
        is_dep(g, w, roots, id),
    ensures
        ({
            let (n, i) = at;
            &&& 0 <= n < g.nodes.len() && 0 <= i < g.nodes[n].deps.len()
            &&& forall|m: int| n < m < g.nodes.len() ==> (#[trigger] g.nodes[m]).id != g.nodes[n].id
            &&& reached(g, w, roots, g.nodes[n].id)
            &&& g.nodes[n].deps[i].pkg == id
            &&& has_wanted_kind(w, g.nodes[n].deps[i])
        }),
        !g.members.contains(id),
        forall|q: int|
            0 <= q < g.packages.len() && (#[trigger] g.packages[q]).id == id && (forall|m: int|
                q < m < g.packages.len() ==> (#[trigger] g.packages[m]).id != id) ==> {
                &&& w.skip_private ==> g.packages[q].crates_io
                &&& w.skip_proc_macros ==> !g.packages[q].proc_macro
            },
{
    let from = choose|from: Seq<char>| #[trigger] reached(g, w, roots, from) && steps(g, w, from, id);
    let i = choose|i: int|
        0 <= i < deps_at(g.nodes, from).len() && (#[trigger] deps_at(g.nodes, from)[i]).pkg == id && followed(
            g,
            w,
            deps_at(g.nodes, from)[i],
        );
    let n = node_of(g.nodes, from);
    last_node_with_the_id_counts(g.nodes, from, n);
    let d = g.nodes[n].deps[i];
    let k = choose|k: int| 0 <= k < d.kinds.len() && wanted_kind(w, #[trigger] d.kinds[k]);
    assert(d.kinds.contains(d.kinds[k]));
    assert forall|q: int|
        0 <= q < g.packages.len() && (#[trigger] g.packages[q]).id == id && (forall|m: int|
            q < m < g.packages.len() ==> (#[trigger] g.packages[m]).id != id) implies {
        &&& w.skip_private ==> g.packages[q].crates_io
        &&& w.skip_proc_macros ==> !g.packages[q].proc_macro
    } by {
        last_package_with_the_id_counts(g.packages, id, q);
    }
    (n, i)
}

/// The package with the id is a proc-macro.
pub open spec fn is_proc_macro(g: GraphView, id: Seq<char>) -> bool {
    package_at(g.packages, id) matches Some(p) && p.proc_macro
}

/// A walk reaches nothing but its roots and what leads on from them: whatever holds of the
/// roots, and passes on from a package to each dependency of a kind that counts and that is
/// no proc-macro to be skipped, holds of everything that is reached. So the dependencies of
/// a proc-macro go with it.
pub proof fn only_dependencies_are_reached(
    g: GraphView,
    w: Walk,
    roots: Seq<Seq<char>>,
    holds: spec_fn(Seq<char>) -> bool,
    id: Seq<char>,
)
    requires
        forall|r: Seq<char>| #[trigger] roots.contains(r) ==> holds(r),
        forall|n: int, i: int|
            0 <= n < g.nodes.len() && 0 <= i < g.nodes[n].deps.len() && holds(g.nodes[n].id) && has_wanted_kind(
                w,
                g.nodes[n].deps[i],
            ) && !(w.skip_proc_macros && is_proc_macro(g, g.nodes[n].deps[i].pkg)) ==> holds(
                (#[trigger] g.nodes[n].deps[i]).pkg,
            ),
        reached(g, w, roots, id),
    ensures
        holds(id),
{
    let path = choose|path: Seq<Seq<char>>| #[trigger] is_path(g, w, roots, path) && path.last() == id;
    along_a_path(g, w, roots, holds, path);
}

proof fn along_a_path(
    g: GraphView,
    w: Walk,
    roots: Seq<Seq<char>>,
    holds: spec_fn(Seq<char>) -> bool,
    path: Seq<Seq<char>>,
)
    requires
        forall|r: Seq<char>| #[trigger] roots.contains(r) ==> holds(r),
        forall|n: int, i: int|
            0 <= n < g.nodes.len() && 0 <= i < g.nodes[n].deps.len() && holds(g.nodes[n].id) && has_wanted_kind(
                w,
                g.nodes[n].deps[i],
            ) && !(w.skip_proc_macros && is_proc_macro(g, g.nodes[n].deps[i].pkg)) ==> holds(
                (#[trigger] g.nodes[n].deps[i]).pkg,
            ),
        is_path(g, w, roots, path),
    ensures
        holds(path.last()),
    decreases path.len(),
{
    if path.len() > 1 {
        let front = path.drop_last();
        assert forall|i: int| 0 <= i < front.len() - 1 implies steps(g, w, #[trigger] front[i], front[i + 1]) by {
            assert(steps(g, w, path[i], path[i + 1]));
        }
        along_a_path(g, w, roots, holds, front);
        let from = path[path.len() - 2];
        let to = path[path.len() - 2 + 1];
        assert(steps(g, w, from, to));
        let i = choose|i: int|
            0 <= i < deps_at(g.nodes, from).len() && (#[trigger] deps_at(g.nodes, from)[i]).pkg == to && followed(
                g,
                w,
                deps_at(g.nodes, from)[i],
            );
        let n = node_of(g.nodes, from);
        last_node_with_the_id_counts(g.nodes, from, n);
        let d = g.nodes[n].deps[i];
        let k = choose|k: int| 0 <= k < d.kinds.len() && wanted_kind(w, #[trigger] d.kinds[k]);
        assert(d.kinds.contains(d.kinds[k]));
        assert(front.last() == from);
    } else {
        assert(path.last() == path[0]);
    }
}

// ---------------------------------------------------------------- roots

proof fn named_member(packages: Seq<PackageView>, members: Seq<Seq<char>>, name: Seq<char>, id: Seq<char>)
    ensures
        members_named(packages, members, name).contains(id) <==> members.contains(id) && (package_at(packages, id) matches Some(p)
            && p.name == name),
    decreases members.len(),
{
    if members.len() > 0 {
        let rest = members.drop_last();
        named_member(packages, rest, name, id);
        let a = members_named(packages, rest, name);
        let b = members_named(packages, members, name);
        assert(members[members.len() - 1] == members.last());
        if rest.contains(id) {
            let k = choose|k: int| 0 <= k < rest.len() && rest[k] == id;
            assert(members[k] == id);
        }
        if members.contains(id) && id != members.last() {
            let k = choose|k: int| 0 <= k < members.len() && members[k] == id;
            assert(rest[k] == id);
        }
        if a.contains(id) {
            let k = choose|k: int| 0 <= k < a.len() && a[k] == id;
            assert(b[k] == id);
        }
        if b.contains(id) && !a.contains(id) {
            let k = choose|k: int| 0 <= k < b.len() && b[k] == id;
            if k < a.len() {
                assert(a[k] == id);
            }
        }
        if b.len() > a.len() {
            assert(b[a.len() as int] == members.last());
        }
    }
}

/// Some workspace member bears the name.
pub open spec fn is_member_name(g: GraphView, name: Seq<char>) -> bool {
    exists|id: Seq<char>| #[trigger] g.members.contains(id) && (package_at(g.packages, id) matches Some(p) && p.name == name)
}

proof fn named_none(g: GraphView, name: Seq<char>)
    ensures
        members_named(g.packages, g.members, name).len() > 0 <==> is_member_name(g, name),
{
    let m = members_named(g.packages, g.members, name);
    if m.len() > 0 {
        assert(m.contains(m[0]));
        named_member(g.packages, g.members, name, m[0]);
    }
    if is_member_name(g, name) {
        let id = choose|id: Seq<char>| #[trigger]
            g.members.contains(id) && (package_at(g.packages, id) matches Some(p) && p.name == name);
        named_member(g.packages, g.members, name, id);
    }
}

/// Without names a walk starts at every workspace member.
pub proof fn walk_starts_at_all_members(g: GraphView)
    ensures
        roots_of(g, Seq::empty()) == Ok::<Seq<Seq<char>>, Seq<char>>(g.members),
{
}

/// With names, a walk starts at exactly those workspace members that bear one of them, if
/// each name is borne by some member.
pub proof fn names_select_members(g: GraphView, names: Seq<Seq<char>>, id: Seq<char>)
    requires
        names.len() > 0,
        forall|i: int| 0 <= i < names.len() ==> is_member_name(g, #[trigger] names[i]),
    ensures
        roots_of(g, names) is Ok,
        roots_of(g, names)->Ok_0.contains(id) <==> g.members.contains(id) && (package_at(g.packages, id) matches Some(p)
            && names.contains(p.name)),
{
    named_by_each(g, names, id);
}

proof fn named_by_each(g: GraphView, names: Seq<Seq<char>>, id: Seq<char>)
    requires
        forall|i: int| 0 <= i < names.len() ==> is_member_name(g, #[trigger] names[i]),
    ensures
        named_roots(g, names) is Ok,
        named_roots(g, names)->Ok_0.contains(id) <==> g.members.contains(id) && (package_at(g.packages, id) matches Some(p)
            && names.contains(p.name)),
    decreases names.len(),
{
    if names.len() > 0 {
        let rest = names.drop_last();
        assert forall|i: int| 0 <= i < rest.len() implies is_member_name(g, #[trigger] rest[i]) by {
            assert(rest[i] == names[i]);
        }
        named_by_each(g, rest, id);
        let last = names[names.len() - 1];
        assert(is_member_name(g, last));
        named_none(g, last);
        named_member(g.packages, g.members, last, id);
        let a = named_roots(g, rest)->Ok_0;
        let m = members_named(g.packages, g.members, last);
        let b = named_roots(g, names)->Ok_0;
        assert(b == a + m);
        if a.contains(id) {
            let k = choose|k: int| 0 <= k < a.len() && a[k] == id;
            assert(b[k] == id);
            let n = package_at(g.packages, id)->0.name;
            let j = choose|j: int| 0 <= j < rest.len() && rest[j] == n;
            assert(names[j] == n);
        }
        if m.contains(id) {
            let k = choose|k: int| 0 <= k < m.len() && m[k] == id;
            assert(b[a.len() + k] == id);
        }
        if b.contains(id) && !a.contains(id) {
            let k = choose|k: int| 0 <= k < b.len() && b[k] == id;
            if k < a.len() {
                assert(a[k] == id);
            }
            assert(m[k - a.len()] == id);
        }
        if let Some(p) = package_at(g.packages, id) {
            if names.contains(p.name) && p.name != last {
                let j = choose|j: int| 0 <= j < names.len() && names[j] == p.name;
                assert(rest[j] == p.name);
            }
        }
    }
}

/// The first name that no workspace member bears is an error that names it.
pub proof fn unknown_name_is_an_error(g: GraphView, names: Seq<Seq<char>>, i: int)
    requires
        0 <= i < names.len(),
        !is_member_name(g, names[i]),
        forall|j: int| 0 <= j < i ==> is_member_name(g, #[trigger] names[j]),
    ensures
        roots_of(g, names) == Err::<Seq<Seq<char>>, Seq<char>>("-p '"@ + names[i] + "' matches no workspace member"@),
    decreases names.len(),
{
    let rest = names.drop_last();
    if i < names.len() - 1 {
        assert(rest[i] == names[i]);
        assert forall|j: int| 0 <= j < i implies is_member_name(g, #[trigger] rest[j]) by {
            assert(rest[j] == names[j]);
        }
        unknown_name_is_an_error(g, rest, i);
    } else {
        assert forall|j: int| 0 <= j < rest.len() implies is_member_name(g, #[trigger] rest[j]) by {
            assert(rest[j] == names[j]);
        }
        named_by_each(g, rest, Seq::empty());
        named_none(g, names[i]);
    }
}

} // verus!
