//! The dependency graph, and the part of it that is attributed.

use vstd::prelude::*;
use vstd::string::*;
use crate::sets::{add_text, has, in_order, sorted, sorted_is_in_order};
use crate::text::{cat3, owned, same};

verus! {

/// What the attribution reads of a package.
pub struct Package {
    pub id: String,
    pub name: String,
    /// the version, written out
    pub version: String,
    /// the license expression that the manifest declares
    pub license: Option<String>,
    pub repository: Option<String>,
    pub authors: Vec<String>,
    /// it comes from crates.io, not from a path, a git repository or another registry
    pub crates_io: bool,
    /// it has a proc-macro target
    pub proc_macro: bool,
}

/// What a `Package` holds.
pub struct PackageView {
    pub id: Seq<char>,
    pub name: Seq<char>,
    pub version: Seq<char>,
    pub license: Option<Seq<char>>,
    pub repository: Option<Seq<char>>,
    pub authors: Seq<Seq<char>>,
    pub crates_io: bool,
    pub proc_macro: bool,
}

impl DeepView for Package {
    type V = PackageView;

    open spec fn deep_view(&self) -> PackageView {
        PackageView {
            id: self.id@,
            name: self.name@,
            version: self.version@,
            license: self.license.deep_view(),
            repository: self.repository.deep_view(),
            authors: self.authors.deep_view(),
            crates_io: self.crates_io,
            proc_macro: self.proc_macro,
        }
    }
}

/// What a dependency is for.
#[derive(Clone, Copy, PartialEq, Eq, Structural)]
pub enum DepKind {
    Normal,
    Development,
    Build,
    Unknown,
}

impl DeepView for DepKind {
    type V = DepKind;

    open spec fn deep_view(&self) -> DepKind {
        *self
    }
}

/// A dependency of a package: whose it is, and what for.
pub struct Dep {
    pub pkg: String,
    pub kinds: Vec<DepKind>,
}

/// What a `Dep` holds.
pub struct DepView {
    pub pkg: Seq<char>,
    pub kinds: Seq<DepKind>,
}

impl DeepView for Dep {
    type V = DepView;

    open spec fn deep_view(&self) -> DepView {
        DepView { pkg: self.pkg@, kinds: self.kinds@ }
    }
}

/// A package of the resolved graph with its dependencies.
pub struct GraphNode {
    pub id: String,
    pub deps: Vec<Dep>,
}

/// What a `GraphNode` holds.
pub struct GraphNodeView {
    pub id: Seq<char>,
    pub deps: Seq<DepView>,
}

impl DeepView for GraphNode {
    type V = GraphNodeView;

    open spec fn deep_view(&self) -> GraphNodeView {
        GraphNodeView { id: self.id@, deps: self.deps.deep_view() }
    }
}

/// The resolved dependency graph of a workspace.
pub struct Graph {
    pub packages: Vec<Package>,
    pub nodes: Vec<GraphNode>,
    /// the ids of the workspace members
    pub members: Vec<String>,
}

/// What a `Graph` holds.
pub struct GraphView {
    pub packages: Seq<PackageView>,
    pub nodes: Seq<GraphNodeView>,
    pub members: Seq<Seq<char>>,
}

impl DeepView for Graph {
    type V = GraphView;

    open spec fn deep_view(&self) -> GraphView {
        GraphView {
            packages: self.packages.deep_view(),
            nodes: self.nodes.deep_view(),
            members: self.members.deep_view(),
        }
    }
}

/// Which dependencies a walk follows and attributes.
#[derive(Clone, Copy)]
pub struct Walk {
    pub include_dev: bool,
    pub include_build: bool,
    pub skip_private: bool,
    pub skip_proc_macros: bool,
}

// ---------------------------------------------------------------- lookups

/// The last of the packages with an id.
pub open spec fn package_at(packages: Seq<PackageView>, id: Seq<char>) -> Option<PackageView>
    decreases packages.len(),
{
    if packages.len() == 0 {
        None
    } else if packages.last().id == id {
        Some(packages.last())
    } else {
        package_at(packages.drop_last(), id)
    }
}

/// The dependencies of the last of the nodes with an id; none if there is no such node.
pub open spec fn deps_at(nodes: Seq<GraphNodeView>, id: Seq<char>) -> Seq<DepView>
    decreases nodes.len(),
{
    if nodes.len() == 0 {
        Seq::empty()
    } else if nodes.last().id == id {
        nodes.last().deps
    } else {
        deps_at(nodes.drop_last(), id)
    }
}

/// What a lookup among packages found.
pub open spec fn found(packages: Seq<Package>, r: Option<usize>) -> Option<PackageView> {
    match r {
        Some(i) => Some(packages[i as int].deep_view()),
        None => None,
    }
}

/// Finds the package with an id.
pub fn find_package(packages: &Vec<Package>, id: &str) -> (r: Option<usize>)
    ensures
        r matches Some(i) ==> i < packages@.len(),
        found(packages@, r) == package_at(packages.deep_view(), id@),
{
    let mut i: usize = packages.len();
    let ghost all = packages.deep_view();
    assert(all.take(all.len() as int) =~= all);
    while i > 0
        invariant
            all == packages.deep_view(),
            i <= packages@.len(),
            package_at(all, id@) == package_at(all.take(i as int), id@),
        decreases i,
    {
        let ghost t = all.take(i as int);
        assert(t.last() == packages@[i - 1].deep_view());
        assert(t.drop_last() =~= all.take(i - 1));
        if same(packages[i - 1].id.as_str(), id) {
            return Some(i - 1);
        }
        i -= 1;
    }
    None
}

/// Finds the node with an id.
pub fn find_node(nodes: &Vec<GraphNode>, id: &str) -> (r: Option<usize>)
    ensures
        match r {
            Some(i) => i < nodes@.len() && nodes@[i as int].deep_view().deps == deps_at(
                nodes.deep_view(),
                id@,
            ),
            None => deps_at(nodes.deep_view(), id@) == Seq::<DepView>::empty(),
        },
{
    let mut i: usize = nodes.len();
    let ghost all = nodes.deep_view();
    assert(all.take(all.len() as int) =~= all);
    while i > 0
        invariant
            all == nodes.deep_view(),
            i <= nodes@.len(),
            deps_at(all, id@) == deps_at(all.take(i as int), id@),
        decreases i,
    {
        let ghost t = all.take(i as int);
        assert(t.last() == nodes@[i - 1].deep_view());
        assert(t.drop_last() =~= all.take(i - 1));
        if same(nodes[i - 1].id.as_str(), id) {
            return Some(i - 1);
        }
        i -= 1;
    }
    None
}

// ---------------------------------------------------------------- roots

/// The members whose package bears a name, in order.
pub open spec fn members_named(
    packages: Seq<PackageView>,
    members: Seq<Seq<char>>,
    name: Seq<char>,
) -> Seq<Seq<char>>
    decreases members.len(),
{
    if members.len() == 0 {
        Seq::empty()
    } else {
        let rest = members_named(packages, members.drop_last(), name);
        match package_at(packages, members.last()) {
            Some(p) => if p.name == name {
                rest.push(members.last())
            } else {
                rest
            },
            None => rest,
        }
    }
}

/// The message for a name that no workspace member bears.
pub open spec fn no_member(name: Seq<char>) -> Seq<char> {
    "-p '"@ + name + "' matches no workspace member"@
}

/// The members that the names select, name by name; an error for the first name that
/// selects none.
pub open spec fn named_roots(g: GraphView, names: Seq<Seq<char>>) -> Result<
    Seq<Seq<char>>,
    Seq<char>,
>
    decreases names.len(),
{
    if names.len() == 0 {
        Ok(Seq::empty())
    } else {
        match named_roots(g, names.drop_last()) {
            Err(e) => Err(e),
            Ok(roots) => {
                let m = members_named(g.packages, g.members, names.last());
                if m.len() == 0 {
                    Err(no_member(names.last()))
                } else {
                    Ok(roots + m)
                }
            },
        }
    }
}

/// Where a walk starts: at all members, or at those that are named.
pub open spec fn roots_of(g: GraphView, names: Seq<Seq<char>>) -> Result<Seq<Seq<char>>, Seq<char>> {
    if names.len() == 0 {
        Ok(g.members)
    } else {
        named_roots(g, names)
    }
}

/// The texts that a result holds.
pub open spec fn texts_result(r: Result<Vec<String>, String>) -> Result<Seq<Seq<char>>, Seq<char>> {
    match r {
        Ok(v) => Ok(v.deep_view()),
        Err(e) => Err(e@),
    }
}

/// The members whose package bears a name.
pub fn find_members(g: &Graph, name: &str) -> (r: Vec<String>)
    ensures
        r.deep_view() == members_named(g.packages.deep_view(), g.members.deep_view(), name@),
{
    let mut out: Vec<String> = Vec::new();
    let ghost all = g.members.deep_view();
    let ghost packages = g.packages.deep_view();
    let mut i: usize = 0;
    assert(out.deep_view() =~= members_named(packages, all.take(0), name@));
    while i < g.members.len()
        invariant
            all == g.members.deep_view(),
            packages == g.packages.deep_view(),
            i <= g.members@.len(),
            out.deep_view() == members_named(packages, all.take(i as int), name@),
        decreases g.members.len() - i,
    {
        let ghost t = all.take(i + 1);
        let ghost o = out.deep_view();
        assert(t.drop_last() =~= all.take(i as int));
        assert(t.last() == g.members@[i as int]@);
        if let Some(k) = find_package(&g.packages, g.members[i].as_str()) {
            if same(g.packages[k].name.as_str(), name) {
                out.push(owned(g.members[i].as_str()));
                assert(out.deep_view() =~= o.push(t.last()));
            }
        }
        i += 1;
    }
    assert(all.take(i as int) =~= all);
    out
}

/// The ids that a walk starts from: all workspace members, or just the named ones.
pub fn select_roots(g: &Graph, names: &Vec<String>) -> (r: Result<Vec<String>, String>)
    ensures
        texts_result(r) == roots_of(g.deep_view(), names.deep_view()),
{
    if names.len() == 0 {
        return Ok(g.members.clone());
    }
    let mut roots: Vec<String> = Vec::new();
    let ghost all = names.deep_view();
    let ghost gv = g.deep_view();
    let mut i: usize = 0;
    assert(roots.deep_view() =~= Seq::<Seq<char>>::empty());
    while i < names.len()
        invariant
            all == names.deep_view(),
            gv == g.deep_view(),
            names@.len() > 0,
            i <= names@.len(),
            named_roots(gv, all.take(i as int)) == Ok::<Seq<Seq<char>>, Seq<char>>(
                roots.deep_view(),
            ),
        decreases names.len() - i,
    {
        let ghost t = all.take(i + 1);
        let ghost o = roots.deep_view();
        assert(t.drop_last() =~= all.take(i as int));
        assert(t.last() == names@[i as int]@);
        let mut matched = find_members(g, names[i].as_str());
        let ghost m = matched.deep_view();
        if matched.len() == 0 {
            proof {
                error_stays(gv, all, i + 1);
            }
            return Err(cat3("-p '", names[i].as_str(), "' matches no workspace member"));
        }
        roots.append(&mut matched);
        assert(roots.deep_view() =~= o + m);
        i += 1;
    }
    assert(all.take(i as int) =~= all);
    Ok(roots)
}

/// The first name that selects nothing decides the error.
proof fn error_stays(g: GraphView, names: Seq<Seq<char>>, i: int)
    requires
        0 <= i <= names.len(),
        named_roots(g, names.take(i)) is Err,
    ensures
        named_roots(g, names) == named_roots(g, names.take(i)),
    decreases names.len(),
{
    if i < names.len() {
        assert(names.drop_last().take(i) =~= names.take(i));
        error_stays(g, names.drop_last(), i);
    } else {
        assert(names.take(i) =~= names);
    }
}

// ---------------------------------------------------------------- the walk

/// A dependency is wanted for one of its kinds: normal ones always, the others when
/// opted in.
pub open spec fn wanted_kind(w: Walk, k: DepKind) -> bool {
    match k {
        DepKind::Normal => true,
        DepKind::Development => w.include_dev,
        DepKind::Build => w.include_build,
        DepKind::Unknown => false,
    }
}

/// The walk goes on through a dependency: it is wanted for some kind, and not a
/// proc-macro that is to be skipped.
pub open spec fn followed(g: GraphView, w: Walk, d: DepView) -> bool {
    &&& exists|i: int| 0 <= i < d.kinds.len() && wanted_kind(w, #[trigger] d.kinds[i])
    &&& !(w.skip_proc_macros && (package_at(g.packages, d.pkg) matches Some(p) && p.proc_macro))
}

/// A package that is reached is attributed: it is no workspace member, and not a private
/// one that is to be skipped.
pub open spec fn attributable(g: GraphView, w: Walk, id: Seq<char>) -> bool {
    &&& !g.members.contains(id)
    &&& !(w.skip_private && (package_at(g.packages, id) matches Some(p) && !p.crates_io))
}

/// The walk steps from one package to another.
pub open spec fn steps(g: GraphView, w: Walk, from: Seq<char>, to: Seq<char>) -> bool {
    exists|i: int|
        0 <= i < deps_at(g.nodes, from).len() && (#[trigger] deps_at(g.nodes, from)[i]).pkg == to
            && followed(g, w, deps_at(g.nodes, from)[i])
}

/// A path of the walk: it starts at a root and every step is one of the walk.
pub open spec fn is_path(
    g: GraphView,
    w: Walk,
    roots: Seq<Seq<char>>,
    path: Seq<Seq<char>>,
) -> bool {
    &&& path.len() > 0
    &&& roots.contains(path[0])
    &&& forall|i: int| 0 <= i < path.len() - 1 ==> steps(g, w, #[trigger] path[i], path[i + 1])
}

/// The walk reaches a package.
pub open spec fn reached(g: GraphView, w: Walk, roots: Seq<Seq<char>>, id: Seq<char>) -> bool {
    exists|path: Seq<Seq<char>>| #[trigger] is_path(g, w, roots, path) && path.last() == id
}

/// A package is attributed: it is a dependency of some package that the walk reaches,
/// and neither a workspace member nor skipped.
pub open spec fn is_dep(g: GraphView, w: Walk, roots: Seq<Seq<char>>, id: Seq<char>) -> bool {
    &&& attributable(g, w, id)
    &&& exists|from: Seq<char>| #[trigger] reached(g, w, roots, from) && steps(g, w, from, id)
}

/// A step from a reached package reaches the next.
pub proof fn step_reaches(
    g: GraphView,
    w: Walk,
    roots: Seq<Seq<char>>,
    from: Seq<char>,
    to: Seq<char>,
)
    requires
        reached(g, w, roots, from),
        steps(g, w, from, to),
    ensures
        reached(g, w, roots, to),
{
    let path = choose|path: Seq<Seq<char>>| #[trigger]
        is_path(g, w, roots, path) && path.last() == from;
    let longer = path.push(to);
    assert forall|i: int| 0 <= i < longer.len() - 1 implies steps(
        g,
        w,
        #[trigger] longer[i],
        longer[i + 1],
    ) by {
        if i < path.len() - 1 {
            assert(longer[i] == path[i] && longer[i + 1] == path[i + 1]);
        } else {
            assert(longer[i] == path.last());
        }
    }
    assert(is_path(g, w, roots, longer));
    assert(longer.last() == to);
}

/// A root is reached.
pub proof fn root_reached(g: GraphView, w: Walk, roots: Seq<Seq<char>>, id: Seq<char>)
    requires
        roots.contains(id),
    ensures
        reached(g, w, roots, id),
{
    let path = seq![id];
    assert(is_path(g, w, roots, path));
    assert(path.last() == id);
}

/// A set that holds the roots and is closed under the steps of the walk holds all that
/// the walk reaches.
proof fn closed_holds_all(
    g: GraphView,
    w: Walk,
    roots: Seq<Seq<char>>,
    set: Set<Seq<char>>,
    path: Seq<Seq<char>>,
)
    requires
        forall|id: Seq<char>| #[trigger] roots.contains(id) ==> set.contains(id),
        forall|a: Seq<char>, b: Seq<char>|
            set.contains(a) && #[trigger] steps(g, w, a, b) ==> set.contains(b),
        is_path(g, w, roots, path),
    ensures
        set.contains(path.last()),
    decreases path.len(),
{
    if path.len() > 1 {
        let shorter = path.drop_last();
        assert forall|i: int| 0 <= i < shorter.len() - 1 implies steps(
            g,
            w,
            #[trigger] shorter[i],
            shorter[i + 1],
        ) by {
            assert(shorter[i] == path[i] && shorter[i + 1] == path[i + 1]);
        }
        closed_holds_all(g, w, roots, set, shorter);
        assert(steps(g, w, path[path.len() - 2], path[path.len() - 2 + 1]));
        assert(shorter.last() == path[path.len() - 2]);
    } else {
        assert(path.last() == path[0]);
    }
}

/// Every id that stands in the graph as the target of a dependency.
pub open spec fn targets(nodes: Seq<GraphNodeView>) -> Set<Seq<char>>
    decreases nodes.len(),
{
    if nodes.len() == 0 {
        Set::empty()
    } else {
        targets(nodes.drop_last()).union(nodes.last().deps.map_values(|d: DepView| d.pkg).to_set())
    }
}

proof fn targets_are_finite(nodes: Seq<GraphNodeView>)
    ensures
        targets(nodes).finite(),
    decreases nodes.len(),
{
    if nodes.len() > 0 {
        targets_are_finite(nodes.drop_last());
        vstd::seq_lib::seq_to_set_is_finite(nodes.last().deps.map_values(|d: DepView| d.pkg));
    }
}

proof fn deps_are_targets(nodes: Seq<GraphNodeView>, id: Seq<char>, i: int)
    requires
        0 <= i < deps_at(nodes, id).len(),
    ensures
        targets(nodes).contains(deps_at(nodes, id)[i].pkg),
    decreases nodes.len(),
{
    if nodes.len() > 0 {
        if nodes.last().id == id {
            let pkgs = nodes.last().deps.map_values(|d: DepView| d.pkg);
            assert(pkgs[i] == nodes.last().deps[i].pkg);
            assert(pkgs.to_set().contains(pkgs[i]));
        } else {
            deps_are_targets(nodes.drop_last(), id, i);
        }
    }
}

/// Whether a dependency is wanted for one of its kinds.
pub fn is_wanted(w: Walk, kinds: &Vec<DepKind>) -> (r: bool)
    ensures
        r == exists|i: int| 0 <= i < kinds@.len() && wanted_kind(w, #[trigger] kinds@[i]),
{
    let mut i: usize = 0;
    while i < kinds.len()
        invariant
            i <= kinds@.len(),
            forall|j: int| 0 <= j < i ==> !wanted_kind(w, #[trigger] kinds@[j]),
        decreases kinds.len() - i,
    {
        let yes = match kinds[i] {
            DepKind::Normal => true,
            DepKind::Development => w.include_dev,
            DepKind::Build => w.include_build,
            DepKind::Unknown => false,
        };
        if yes {
            assert(wanted_kind(w, kinds@[i as int]));
            return true;
        }
        i += 1;
    }
    false
}

/// Whether the walk goes on through a dependency.
pub fn is_followed(g: &Graph, w: Walk, d: &Dep) -> (r: bool)
    ensures
        r == followed(g.deep_view(), w, d.deep_view()),
{
    let ghost dv = d.deep_view();
    assert(dv.kinds == d.kinds@);
    if !is_wanted(w, &d.kinds) {
        assert(forall|i: int| 0 <= i < dv.kinds.len() ==> !wanted_kind(w, #[trigger] dv.kinds[i]));
        return false;
    }
    proof {
        let i = choose|i: int| 0 <= i < d.kinds@.len() && wanted_kind(w, #[trigger] d.kinds@[i]);
        assert(wanted_kind(w, dv.kinds[i]));
    }
    if w.skip_proc_macros {
        if let Some(k) = find_package(&g.packages, d.pkg.as_str()) {
            return !g.packages[k].proc_macro;
        }
    }
    true
}

/// Whether a package that is reached is attributed.
pub fn is_attributable(g: &Graph, w: Walk, id: &str) -> (r: bool)
    ensures
        r == attributable(g.deep_view(), w, id@),
{
    if has(&g.members, id) {
        return false;
    }
    if w.skip_private {
        if let Some(k) = find_package(&g.packages, id) {
            return g.packages[k].crates_io;
        }
    }
    true
}

/// Whether a package is a dependency of one in the set.
pub open spec fn behind(g: GraphView, w: Walk, set: Set<Seq<char>>, id: Seq<char>) -> bool {
    exists|from: Seq<char>| #[trigger] set.contains(from) && steps(g, w, from, id)
}

/// The ids that stand in a list.
pub open spec fn ids(v: Vec<String>) -> Set<Seq<char>> {
    v.deep_view().to_set()
}

/// The ids of the attributed packages, in ascending order.
pub open spec fn deps_of(g: GraphView, w: Walk, roots: Seq<Seq<char>>) -> Seq<Seq<char>> {
    in_order(Set::new(|id: Seq<char>| is_dep(g, w, roots, id)))
}

/// The dependency closure of the roots, minus the workspace members and what is skipped,
/// in ascending order of ids.
pub fn closure(g: &Graph, w: Walk, roots: &Vec<String>) -> (r: Vec<String>)
    ensures
        r.deep_view() == deps_of(g.deep_view(), w, roots.deep_view()),
        sorted(r.deep_view()),
        forall|id: Seq<char>|
            #[trigger] r.deep_view().contains(id) <==> is_dep(
                g.deep_view(),
                w,
                roots.deep_view(),
                id,
            ),
{
    let ghost gv = g.deep_view();
    let ghost rv = roots.deep_view();
    let ghost universe = rv.to_set().union(targets(gv.nodes));
    let mut stack: Vec<String> = roots.clone();
    let mut seen: Vec<String> = Vec::new();
    let mut deps: Vec<String> = Vec::new();
    proof {
        targets_are_finite(gv.nodes);
        vstd::seq_lib::seq_to_set_is_finite(rv);
        assert(universe.finite());
        assert(ids(seen) =~= Set::<Seq<char>>::empty());
        assert(ids(deps) =~= Set::<Seq<char>>::empty());
        assert(stack.deep_view() == rv);
        assert forall|id: Seq<char>| #[trigger] rv.contains(id) implies reached(gv, w, rv, id) by {
            root_reached(gv, w, rv, id);
        }
        assert forall|id: Seq<char>| #[trigger] ids(stack).contains(id) implies rv.contains(id) by {}
    }
    while stack.len() > 0
        invariant
            gv == g.deep_view(),
            rv == roots.deep_view(),
            universe == rv.to_set().union(targets(gv.nodes)),
            universe.finite(),
            sorted(seen.deep_view()),
            sorted(deps.deep_view()),
            ids(seen).subset_of(universe),
            ids(stack).subset_of(universe),
            forall|id: Seq<char>| #[trigger] ids(seen).contains(id) ==> reached(gv, w, rv, id),
            forall|id: Seq<char>| #[trigger] ids(stack).contains(id) ==> reached(gv, w, rv, id),
            forall|id: Seq<char>| #[trigger]
                rv.contains(id) ==> ids(seen).contains(id) || ids(stack).contains(id),
            forall|a: Seq<char>, b: Seq<char>|
                ids(seen).contains(a) && #[trigger] steps(gv, w, a, b) ==> ids(seen).contains(b)
                    || ids(stack).contains(b),
            forall|id: Seq<char>| #[trigger]
                ids(deps).contains(id) <==> attributable(gv, w, id) && behind(
                    gv,
                    w,
                    ids(seen),
                    id,
                ),
        decreases universe.len() - ids(seen).len(), stack.len(),
    {
        let ghost stack0 = stack.deep_view();
        let ghost seen0 = ids(seen);
        let id: String = match stack.pop() {
            Some(id) => id,
            None => return deps,
        };
        proof {
            assert(stack0.last() == id@);
            assert(stack.deep_view() =~= stack0.drop_last());
            assert(stack0.to_set().contains(id@)) by {
                assert(stack0.contains(stack0.last()));
            }
            assert forall|x: Seq<char>|
                stack0.to_set().contains(x) implies x == id@ || #[trigger] ids(stack).contains(
                x,
            ) by {
                let k = choose|k: int| 0 <= k < stack0.len() && stack0[k] == x;
                if k < stack0.len() - 1 {
                    assert(stack.deep_view()[k] == x);
                }
            }
            assert forall|x: Seq<char>| #[trigger]
                ids(stack).contains(x) implies stack0.to_set().contains(x) by {
                let k = choose|k: int|
                    0 <= k < stack.deep_view().len() && stack.deep_view()[k] == x;
                assert(stack0[k] == x);
            }
            vstd::set_lib::lemma_len_subset(seen0, universe);
            vstd::seq_lib::seq_to_set_is_finite(seen.deep_view());
        }
        if has(&seen, id.as_str()) {
            continue;
        }
        add_text(&mut seen, id.as_str());
        proof {
            vstd::seq_lib::seq_to_set_is_finite(seen.deep_view());
            vstd::set_lib::lemma_len_subset(ids(seen), universe);
        }
        let ghost stack1 = ids(stack);
        let ghost deps1 = ids(deps);
        match find_node(&g.nodes, id.as_str()) {
            None => {
                proof {
                    assert forall|b: Seq<char>| !#[trigger] steps(gv, w, id@, b) by {}
                    same_behind(gv, w, seen0, id@);
                }
            },
            Some(k) => {
                let node = &g.nodes[k];
                let mut j: usize = 0;
                let ghost list = deps_at(gv.nodes, id@);
                assert(list == node.deps.deep_view());
                while j < node.deps.len()
                    invariant
                        gv == g.deep_view(),
                        rv == roots.deep_view(),
                        universe == rv.to_set().union(targets(gv.nodes)),
                        list == node.deps.deep_view(),
                        list == deps_at(gv.nodes, id@),
                        j <= node.deps@.len(),
                        sorted(deps.deep_view()),
                        reached(gv, w, rv, id@),
                        ids(stack).subset_of(universe),
                        stack1.subset_of(ids(stack)),
                        forall|x: Seq<char>| #[trigger]
                            ids(stack).contains(x) ==> reached(gv, w, rv, x),
                        forall|m: int|
                            0 <= m < j && followed(gv, w, #[trigger] list[m]) ==> ids(
                                stack,
                            ).contains(list[m].pkg),
                        forall|x: Seq<char>| #[trigger]
                            ids(deps).contains(x) <==> deps1.contains(x) || (attributable(gv, w, x)
                                && exists|m: int|
                                0 <= m < j && (#[trigger] list[m]).pkg == x && followed(
                                    gv,
                                    w,
                                    list[m],
                                )),
                    decreases node.deps.len() - j,
                {
                    let d = &node.deps[j];
                    let ghost deps2 = ids(deps);
                    let ghost stack2 = stack.deep_view();
                    assert(d.deep_view() == list[j as int]);
                    if is_followed(g, w, d) {
                        if is_attributable(g, w, d.pkg.as_str()) {
                            add_text(&mut deps, d.pkg.as_str());
                        }
                        stack.push(owned(d.pkg.as_str()));
                        proof {
                            deps_are_targets(gv.nodes, id@, j as int);
                            assert(steps(gv, w, id@, d.pkg@));
                            step_reaches(gv, w, rv, id@, d.pkg@);
                            assert(stack.deep_view() =~= stack2.push(d.pkg@));
                            stack2.lemma_push_to_set_commute(d.pkg@);
                            assert(ids(stack) == stack2.to_set().insert(d.pkg@));
                        }
                    }
                    proof {
                        assert forall|x: Seq<char>| #[trigger]
                            ids(deps).contains(x) <==> deps1.contains(x) || (attributable(gv, w, x)
                                && exists|m: int|
                                0 <= m < j + 1 && (#[trigger] list[m]).pkg == x && followed(
                                    gv,
                                    w,
                                    list[m],
                                )) by {
                            if ids(deps).contains(x) {
                                if deps2.contains(x) {
                                } else {
                                    assert(x == d.pkg@);
                                    assert(list[j as int].pkg == x);
                                }
                            } else {
                                if attributable(gv, w, x) && (exists|m: int|
                                    0 <= m < j + 1 && (#[trigger] list[m]).pkg == x && followed(
                                        gv,
                                        w,
                                        list[m],
                                    )) {
                                    let m = choose|m: int|
                                        0 <= m < j + 1 && (#[trigger] list[m]).pkg == x && followed(
                                            gv,
                                            w,
                                            list[m],
                                        );
                                    if m < j {
                                        assert(deps2.contains(x));
                                    } else {
                                        assert(x == d.pkg@);
                                    }
                                }
                            }
                        }
                    }
                    j += 1;
                }
                proof {
                    assert forall|x: Seq<char>| #[trigger]
                        ids(deps).contains(x) <==> attributable(gv, w, x) && behind(
                            gv,
                            w,
                            ids(seen),
                            x,
                        ) by {
                        grown_behind(gv, w, seen0, id@, x);
                        assert(ids(seen) =~= seen0.insert(id@));
                    }
                }
            },
        }
        proof {
            assert(ids(seen) =~= seen0.insert(id@));
            assert forall|a: Seq<char>, b: Seq<char>|
                ids(seen).contains(a) && #[trigger] steps(gv, w, a, b) implies ids(seen).contains(b)
                || ids(stack).contains(b) by {
                if a == id@ {
                    let m = choose|m: int|
                        0 <= m < deps_at(gv.nodes, id@).len() && (#[trigger] deps_at(
                            gv.nodes,
                            id@,
                        )[m]).pkg == b && followed(gv, w, deps_at(gv.nodes, id@)[m]);
                    assert(ids(stack).contains(b));
                }
            }
        }
    }
    proof {
        assert(stack.deep_view() =~= Seq::<Seq<char>>::empty());
        assert forall|id: Seq<char>| #[trigger]
            deps.deep_view().contains(id) <==> is_dep(gv, w, rv, id) by {
            assert(deps.deep_view().contains(id) == ids(deps).contains(id));
            if is_dep(gv, w, rv, id) {
                let from = choose|from: Seq<char>| #[trigger]
                    reached(gv, w, rv, from) && steps(gv, w, from, id);
                let path = choose|path: Seq<Seq<char>>| #[trigger]
                    is_path(gv, w, rv, path) && path.last() == from;
                closed_holds_all(gv, w, rv, ids(seen), path);
                assert(behind(gv, w, ids(seen), id));
            }
            if ids(deps).contains(id) {
                let from = choose|from: Seq<char>| #[trigger]
                    ids(seen).contains(from) && steps(gv, w, from, id);
                assert(reached(gv, w, rv, from));
            }
        }
        let want = Set::new(|id: Seq<char>| is_dep(gv, w, rv, id));
        assert forall|id: Seq<char>| deps.deep_view().to_set().contains(id) == want.contains(id) by {
            assert(deps.deep_view().contains(id) == is_dep(gv, w, rv, id));
        }
        assert(deps.deep_view().to_set() =~= want);
        sorted_is_in_order(deps.deep_view());
    }
    deps
}

/// A package without dependencies leads to nothing.
proof fn same_behind(g: GraphView, w: Walk, set: Set<Seq<char>>, from: Seq<char>)
    requires
        forall|b: Seq<char>| !#[trigger] steps(g, w, from, b),
    ensures
        forall|id: Seq<char>| #[trigger]
            behind(g, w, set.insert(from), id) == behind(g, w, set, id),
{
    assert forall|id: Seq<char>| #[trigger]
        behind(g, w, set.insert(from), id) == behind(g, w, set, id) by {
        grown_behind(g, w, set, from, id);
    }
}

/// A package added to the set adds what it steps to.
proof fn grown_behind(g: GraphView, w: Walk, set: Set<Seq<char>>, from: Seq<char>, id: Seq<char>)
    ensures
        behind(g, w, set.insert(from), id) == (behind(g, w, set, id) || steps(g, w, from, id)),
{
    if behind(g, w, set.insert(from), id) {
        let a = choose|a: Seq<char>| #[trigger]
            set.insert(from).contains(a) && steps(g, w, a, id);
        if a != from {
            assert(set.contains(a));
        }
    }
    if behind(g, w, set, id) {
        let a = choose|a: Seq<char>| #[trigger] set.contains(a) && steps(g, w, a, id);
        assert(set.insert(from).contains(a));
    }
    if steps(g, w, from, id) {
        assert(set.insert(from).contains(from));
    }
}

// ---------------------------------------------------------------- laws

/// No workspace member is ever attributed.
pub proof fn members_are_not_attributed(
    g: GraphView,
    w: Walk,
    roots: Seq<Seq<char>>,
    id: Seq<char>,
)
    requires
        g.members.contains(id),
    ensures
        !is_dep(g, w, roots, id),
{
}

/// With `skip_private`, everything attributed that has a package comes from crates.io.
pub proof fn private_packages_are_skipped(
    g: GraphView,
    w: Walk,
    roots: Seq<Seq<char>>,
    id: Seq<char>,
)
    requires
        w.skip_private,
        is_dep(g, w, roots, id),
        package_at(g.packages, id) is Some,
    ensures
        package_at(g.packages, id)->0.crates_io,
{
}

/// With `skip_proc_macros`, no proc-macro crate is attributed.
pub proof fn proc_macros_are_skipped(g: GraphView, w: Walk, roots: Seq<Seq<char>>, id: Seq<char>)
    requires
        w.skip_proc_macros,
        package_at(g.packages, id) is Some,
        package_at(g.packages, id)->0.proc_macro,
    ensures
        !is_dep(g, w, roots, id),
{
}

/// Opting in to development or build dependencies only adds packages.
pub proof fn opting_in_only_adds(
    g: GraphView,
    w: Walk,
    wider: Walk,
    roots: Seq<Seq<char>>,
    id: Seq<char>,
)
    requires
        w.include_dev ==> wider.include_dev,
        w.include_build ==> wider.include_build,
        w.skip_private == wider.skip_private,
        w.skip_proc_macros == wider.skip_proc_macros,
        is_dep(g, w, roots, id),
    ensures
        is_dep(g, wider, roots, id),
{
    assert forall|d: DepView| #[trigger] followed(g, w, d) implies followed(g, wider, d) by {
        let i = choose|i: int| 0 <= i < d.kinds.len() && wanted_kind(w, #[trigger] d.kinds[i]);
        assert(wanted_kind(wider, d.kinds[i]));
    }
    assert forall|a: Seq<char>, b: Seq<char>| #[trigger] steps(g, w, a, b) implies steps(
        g,
        wider,
        a,
        b,
    ) by {
        let i = choose|i: int|
            0 <= i < deps_at(g.nodes, a).len() && (#[trigger] deps_at(g.nodes, a)[i]).pkg == b
                && followed(g, w, deps_at(g.nodes, a)[i]);
        assert(followed(g, wider, deps_at(g.nodes, a)[i]));
    }
    let from = choose|from: Seq<char>| #[trigger]
        reached(g, w, roots, from) && steps(g, w, from, id);
    let path = choose|path: Seq<Seq<char>>| #[trigger]
        is_path(g, w, roots, path) && path.last() == from;
    assert forall|i: int| 0 <= i < path.len() - 1 implies steps(
        g,
        wider,
        #[trigger] path[i],
        path[i + 1],
    ) by {
        assert(steps(g, w, path[i], path[i + 1]));
    }
    assert(is_path(g, wider, roots, path));
    assert(reached(g, wider, roots, from));
}

/// A private package that is skipped is still walked through: what is reached does not
/// depend on `skip_private`, so its crates.io dependencies stay.
pub proof fn private_packages_are_walked(
    g: GraphView,
    w: Walk,
    other: Walk,
    roots: Seq<Seq<char>>,
    id: Seq<char>,
)
    requires
        w.include_dev == other.include_dev,
        w.include_build == other.include_build,
        w.skip_proc_macros == other.skip_proc_macros,
        reached(g, w, roots, id),
    ensures
        reached(g, other, roots, id),
{
    assert forall|d: DepView| #[trigger] followed(g, w, d) implies followed(g, other, d) by {
        let i = choose|i: int| 0 <= i < d.kinds.len() && wanted_kind(w, #[trigger] d.kinds[i]);
        assert(wanted_kind(other, d.kinds[i]));
    }
    let path = choose|path: Seq<Seq<char>>| #[trigger]
        is_path(g, w, roots, path) && path.last() == id;
    assert forall|i: int| 0 <= i < path.len() - 1 implies steps(
        g,
        other,
        #[trigger] path[i],
        path[i + 1],
    ) by {
        let a = path[i];
        let b = path[i + 1];
        assert(steps(g, w, a, b));
        let k = choose|k: int|
            0 <= k < deps_at(g.nodes, a).len() && (#[trigger] deps_at(g.nodes, a)[k]).pkg == b
                && followed(g, w, deps_at(g.nodes, a)[k]);
        assert(followed(g, other, deps_at(g.nodes, a)[k]));
    }
    assert(is_path(g, other, roots, path));
}

/// Skipping private packages or proc-macros only removes packages.
pub proof fn skipping_only_removes(
    g: GraphView,
    w: Walk,
    all: Walk,
    roots: Seq<Seq<char>>,
    id: Seq<char>,
)
    requires
        w.include_dev == all.include_dev,
        w.include_build == all.include_build,
        !all.skip_private,
        !all.skip_proc_macros,
        is_dep(g, w, roots, id),
    ensures
        is_dep(g, all, roots, id),
{
    assert forall|a: Seq<char>, b: Seq<char>| #[trigger] steps(g, w, a, b) implies steps(
        g,
        all,
        a,
        b,
    ) by {
        let k = choose|k: int|
            0 <= k < deps_at(g.nodes, a).len() && (#[trigger] deps_at(g.nodes, a)[k]).pkg == b
                && followed(g, w, deps_at(g.nodes, a)[k]);
        let d = deps_at(g.nodes, a)[k];
        let i = choose|i: int| 0 <= i < d.kinds.len() && wanted_kind(w, #[trigger] d.kinds[i]);
        assert(wanted_kind(all, d.kinds[i]));
        assert(followed(g, all, d));
    }
    let from = choose|from: Seq<char>| #[trigger]
        reached(g, w, roots, from) && steps(g, w, from, id);
    let path = choose|path: Seq<Seq<char>>| #[trigger]
        is_path(g, w, roots, path) && path.last() == from;
    assert forall|i: int| 0 <= i < path.len() - 1 implies steps(
        g,
        all,
        #[trigger] path[i],
        path[i + 1],
    ) by {
        assert(steps(g, w, path[i], path[i + 1]));
    }
    assert(is_path(g, all, roots, path));
    assert(reached(g, all, roots, from));
}

/// The closure of some roots holds nothing that the closure of more roots does not: a
/// selection of workspace members is a partial view of the whole.
pub proof fn fewer_roots_reach_less(
    g: GraphView,
    w: Walk,
    some: Seq<Seq<char>>,
    all: Seq<Seq<char>>,
    id: Seq<char>,
)
    requires
        forall|r: Seq<char>| #[trigger] some.contains(r) ==> all.contains(r),
        is_dep(g, w, some, id),
    ensures
        is_dep(g, w, all, id),
{
    let from = choose|from: Seq<char>| #[trigger]
        reached(g, w, some, from) && steps(g, w, from, id);
    let path = choose|path: Seq<Seq<char>>| #[trigger]
        is_path(g, w, some, path) && path.last() == from;
    assert(some.contains(path[0]));
    assert(is_path(g, w, all, path));
    assert(reached(g, w, all, from));
}

/// Two graphs say the same of every package, in whatever order they list things.
pub open spec fn alike(g: GraphView, h: GraphView) -> bool {
    &&& forall|id: Seq<char>| #[trigger] package_at(g.packages, id) == package_at(h.packages, id)
    &&& forall|id: Seq<char>| #[trigger] deps_at(g.nodes, id) == deps_at(h.nodes, id)
    &&& forall|id: Seq<char>| #[trigger] g.members.contains(id) == h.members.contains(id)
}

proof fn reached_alike(
    g: GraphView,
    h: GraphView,
    w: Walk,
    roots: Seq<Seq<char>>,
    others: Seq<Seq<char>>,
    id: Seq<char>,
)
    requires
        alike(g, h),
        forall|r: Seq<char>| #[trigger] roots.contains(r) ==> others.contains(r),
        is_dep(g, w, roots, id),
    ensures
        is_dep(h, w, others, id),
{
    assert forall|d: DepView| #[trigger] followed(g, w, d) implies followed(h, w, d) by {
        assert(package_at(g.packages, d.pkg) == package_at(h.packages, d.pkg));
    }
    assert forall|a: Seq<char>, b: Seq<char>| #[trigger] steps(g, w, a, b) implies steps(
        h,
        w,
        a,
        b,
    ) by {
        assert(deps_at(g.nodes, a) == deps_at(h.nodes, a));
        let k = choose|k: int|
            0 <= k < deps_at(g.nodes, a).len() && (#[trigger] deps_at(g.nodes, a)[k]).pkg == b
                && followed(g, w, deps_at(g.nodes, a)[k]);
        assert(followed(h, w, deps_at(h.nodes, a)[k]));
    }
    let from = choose|from: Seq<char>| #[trigger]
        reached(g, w, roots, from) && steps(g, w, from, id);
    let path = choose|path: Seq<Seq<char>>| #[trigger]
        is_path(g, w, roots, path) && path.last() == from;
    assert forall|i: int| 0 <= i < path.len() - 1 implies steps(
        h,
        w,
        #[trigger] path[i],
        path[i + 1],
    ) by {
        assert(steps(g, w, path[i], path[i + 1]));
    }
    assert(roots.contains(path[0]));
    assert(is_path(h, w, others, path));
    assert(reached(h, w, others, from));
    assert(g.members.contains(id) == h.members.contains(id));
    assert(package_at(g.packages, id) == package_at(h.packages, id));
}

/// The closure does not depend on the order in which packages, members and roots are
/// listed: the same tree leads to the same list of dependencies.
pub proof fn order_of_the_graph_does_not_matter(
    g: GraphView,
    h: GraphView,
    w: Walk,
    roots: Seq<Seq<char>>,
    others: Seq<Seq<char>>,
)
    requires
        alike(g, h),
        forall|r: Seq<char>| #[trigger] roots.contains(r) == others.contains(r),
    ensures
        deps_of(g, w, roots) == deps_of(h, w, others),
{
    let a = Set::new(|id: Seq<char>| is_dep(g, w, roots, id));
    let b = Set::new(|id: Seq<char>| is_dep(h, w, others, id));
    assert forall|id: Seq<char>| a.contains(id) == b.contains(id) by {
        if is_dep(g, w, roots, id) {
            reached_alike(g, h, w, roots, others, id);
        }
        if is_dep(h, w, others, id) {
            reached_alike(h, g, w, others, roots, id);
        }
    }
    assert(a =~= b);
}

/// A package is found by its id wherever it stands in the list, when no other has that id.
pub proof fn lookup_ignores_order(packages: Seq<PackageView>, i: int)
    requires
        0 <= i < packages.len(),
        forall|j: int| 0 <= j < packages.len() && j != i ==> (#[trigger] packages[j]).id != packages[i].id,
    ensures
        package_at(packages, packages[i].id) == Some(packages[i]),
    decreases packages.len(),
{
    if i < packages.len() - 1 {
        let t = packages.drop_last();
        assert(packages[packages.len() - 1] == packages.last());
        assert forall|j: int| 0 <= j < t.len() && j != i implies (#[trigger] t[j]).id != t[i].id by {
            assert(t[j] == packages[j]);
        }
        lookup_ignores_order(t, i);
    }
}

} // verus!
