//! License expressions evaluated against the accepted set.

use vstd::prelude::*;
use vstd::string::*;
use crate::config::{allowed_by, Accept, AcceptView};
use crate::expression::{license_name, name_of, Expression, Node, NodeView, Term, TermView};
use crate::sets::{add_all, add_text, has, sorted};
use crate::text::owned;

verus! {

// ---------------------------------------------------------------- texts

/// The canonical text of a license id, as `spdx::license_id` finds it.
pub uninterp spec fn spdx_license_text(id: Seq<char>) -> Option<Seq<char>>;

/// The canonical text of an exception id, as `spdx::exception_id` finds it.
pub uninterp spec fn spdx_exception_text(id: Seq<char>) -> Option<Seq<char>>;

/// Calls `spdx::license_id` and takes the `text` of what it finds; both depend on the
/// id alone.
#[verifier::external_body]
pub(crate) fn license_text(id: &str) -> (r: Option<&'static str>)
    ensures
        r.deep_view() == spdx_license_text(id@),
{
    spdx::license_id(id).map(|l| l.text())
}

/// Calls `spdx::exception_id` and takes the `text` of what it finds; both depend on the
/// id alone.
#[verifier::external_body]
pub(crate) fn exception_text(id: &str) -> (r: Option<&'static str>)
    ensures
        r.deep_view() == spdx_exception_text(id@),
{
    spdx::exception_id(id).map(|e| e.text())
}

/// The text of a license, or else that of an exception.
pub open spec fn either_text(
    license: Option<Seq<char>>,
    exception: Option<Seq<char>>,
) -> Option<Seq<char>> {
    match license {
        Some(t) => Some(t),
        None => exception,
    }
}

/// The text of a license, or else that of an exception.
pub fn prefer_license(
    license: Option<&'static str>,
    exception: Option<&'static str>,
) -> (r: Option<&'static str>)
    ensures
        r.deep_view() == either_text(license.deep_view(), exception.deep_view()),
{
    match license {
        Some(t) => Some(t),
        None => exception,
    }
}

/// The canonical text that an id leads to in the SPDX corpus.
pub open spec fn corpus_text(id: Seq<char>) -> Option<Seq<char>> {
    either_text(spdx_license_text(id), spdx_exception_text(id))
}

/// Canonical text for a license or exception id, from the bundled SPDX corpus.
pub fn canonical_text(id: &str) -> (r: Option<&'static str>)
    ensures
        r.deep_view() == corpus_text(id@),
{
    prefer_license(license_text(id), exception_text(id))
}

// ---------------------------------------------------------------- the choice

/// A set of license names, or none when the accepted set does not cover the expression.
pub type Pick = Option<Set<Seq<char>>>;

/// Some accepted entry allows the term.
pub open spec fn accepted_term(t: TermView, acc: Seq<AcceptView>) -> bool {
    exists|i: int|
        0 <= i < acc.len() && allowed_by(#[trigger] acc[i], name_of(t), t.exception)
}

/// What a single term is attributed under.
pub open spec fn leaf_pick(t: TermView, acc: Seq<AcceptView>) -> Pick {
    if accepted_term(t, acc) {
        Some(Set::empty().insert(name_of(t)))
    } else {
        None
    }
}

/// From position `i` on, the first entry whose license is in the set.
pub open spec fn best_from(set: Set<Seq<char>>, acc: Seq<AcceptView>, i: int) -> int
    decreases acc.len() - i,
{
    if i >= acc.len() {
        usize::MAX as int
    } else if set.contains(acc[i].license) {
        i
    } else {
        best_from(set, acc, i + 1)
    }
}

/// How far up the accepted list a set stands: the position of the first entry whose
/// license it holds.
pub open spec fn best_rank(set: Set<Seq<char>>, acc: Seq<AcceptView>) -> int {
    best_from(set, acc, 0)
}

/// `AND` keeps both sides.
pub open spec fn both(a: Pick, b: Pick) -> Pick {
    match (a, b) {
        (Some(x), Some(y)) => Some(x.union(y)),
        _ => None,
    }
}

/// `OR` keeps the side that stands further up the accepted list, the left one on a tie;
/// or the one that is covered at all.
pub open spec fn preferred(a: Pick, b: Pick, acc: Seq<AcceptView>) -> Pick {
    match (a, b) {
        (Some(x), Some(y)) => if best_rank(x, acc) <= best_rank(y, acc) {
            a
        } else {
            b
        },
        (Some(_), None) => a,
        (None, _) => b,
    }
}

/// The stack after the nodes have been read in postfix order, or none if an operator
/// lacked an operand.
pub open spec fn stack_after(nodes: Seq<NodeView>, acc: Seq<AcceptView>) -> Option<Seq<Pick>>
    decreases nodes.len(),
{
    if nodes.len() == 0 {
        Some(Seq::empty())
    } else {
        match stack_after(nodes.drop_last(), acc) {
            None => None,
            Some(st) => match nodes.last() {
                NodeView::Req(t) => Some(st.push(leaf_pick(t, acc))),
                NodeView::And => if st.len() < 2 {
                    None
                } else {
                    Some(
                        st.drop_last().drop_last().push(both(st[st.len() - 2], st[st.len() - 1])),
                    )
                },
                NodeView::Or => if st.len() < 2 {
                    None
                } else {
                    Some(
                        st.drop_last().drop_last().push(
                            preferred(st[st.len() - 2], st[st.len() - 1], acc),
                        ),
                    )
                },
            },
        }
    }
}

/// The licenses that an expression is attributed under.
pub open spec fn chosen(nodes: Seq<NodeView>, acc: Seq<AcceptView>) -> Pick {
    match stack_after(nodes, acc) {
        None => None,
        Some(st) => if st.len() == 0 {
            None
        } else {
            st.last()
        },
    }
}

/// The set that an optional list stands for.
pub open spec fn pick_of(p: Option<Vec<String>>) -> Pick {
    match p {
        Some(v) => Some(v.deep_view().to_set()),
        None => None,
    }
}

/// The list, if there is one, stands in ascending order.
pub open spec fn pick_sorted(p: Option<Vec<String>>) -> bool {
    p matches Some(v) ==> sorted(v.deep_view())
}

/// The sets that a stack of lists stands for.
pub open spec fn picks_of(st: Seq<Option<Vec<String>>>) -> Seq<Pick> {
    st.map_values(|p: Option<Vec<String>>| pick_of(p))
}

/// Whether some accepted entry allows the term.
pub fn is_accepted(t: &Term, accepted: &[Accept]) -> (r: bool)
    ensures
        r == accepted_term(t.deep_view(), accepted.deep_view()),
{
    let name = license_name(t);
    let mut i: usize = 0;
    let ghost acc = accepted.deep_view();
    let ghost tv = t.deep_view();
    while i < accepted.len()
        invariant
            acc == accepted.deep_view(),
            tv == t.deep_view(),
            name@ == name_of(tv),
            i <= accepted@.len(),
            forall|j: int|
                0 <= j < i ==> !allowed_by(#[trigger] acc[j], name_of(tv), tv.exception),
        decreases accepted.len() - i,
    {
        let exception = match &t.exception {
            Some(e) => Some(e.as_str()),
            None => None,
        };
        if accepted[i].allows(name.as_str(), exception) {
            assert(allowed_by(acc[i as int], name_of(tv), tv.exception));
            return true;
        }
        i += 1;
    }
    false
}

/// How far up the accepted list a set stands.
pub fn best(set: &Vec<String>, accepted: &[Accept]) -> (r: usize)
    ensures
        r == best_rank(set.deep_view().to_set(), accepted.deep_view()),
{
    let mut i: usize = 0;
    let ghost s = set.deep_view().to_set();
    let ghost acc = accepted.deep_view();
    while i < accepted.len()
        invariant
            s == set.deep_view().to_set(),
            acc == accepted.deep_view(),
            i <= accepted@.len(),
            best_rank(s, acc) == best_from(s, acc, i as int),
        decreases accepted.len() - i,
    {
        if has(set, accepted[i].license.as_str()) {
            return i;
        }
        i += 1;
    }
    usize::MAX
}

/// Joins two operands at an operator: `AND` keeps both, `OR` the preferred one.
pub fn combine(
    and: bool,
    a: Option<Vec<String>>,
    b: Option<Vec<String>>,
    accepted: &[Accept],
) -> (r: Option<Vec<String>>)
    requires
        pick_sorted(a),
        pick_sorted(b),
    ensures
        pick_sorted(r),
        pick_of(r) == if and {
            both(pick_of(a), pick_of(b))
        } else {
            preferred(pick_of(a), pick_of(b), accepted.deep_view())
        },
{
    if and {
        match (a, b) {
            (Some(x), Some(y)) => {
                let mut x = x;
                add_all(&mut x, &y);
                Some(x)
            },
            _ => None,
        }
    } else {
        match (a, b) {
            (Some(x), Some(y)) => if best(&x, accepted) <= best(&y, accepted) {
                Some(x)
            } else {
                Some(y)
            },
            (Some(x), None) => Some(x),
            (None, b) => b,
        }
    }
}

/// The licenses to attribute an expression under, in ascending order, or `None` if the
/// accepted set cannot cover it: `OR` keeps the preferred operand, `AND` unions both, an
/// unaccepted term is `None`.
pub fn choose_licenses(expr: &Expression, accepted: &[Accept]) -> (r: Option<Vec<String>>)
    ensures
        pick_sorted(r),
        pick_of(r) == chosen(expr.deep_view(), accepted.deep_view()),
{
    let mut stack: Vec<Option<Vec<String>>> = Vec::new();
    let ghost nodes = expr.deep_view();
    let ghost acc = accepted.deep_view();
    let mut i: usize = 0;
    assert(picks_of(stack@) =~= Seq::<Pick>::empty());
    assert(nodes.take(0) =~= Seq::<NodeView>::empty());
    while i < expr.nodes.len()
        invariant
            nodes == expr.deep_view(),
            acc == accepted.deep_view(),
            i <= expr.nodes@.len(),
            forall|j: int| 0 <= j < stack@.len() ==> pick_sorted(#[trigger] stack@[j]),
            stack_after(nodes.take(i as int), acc) == Some(picks_of(stack@)),
        decreases expr.nodes.len() - i,
    {
        let ghost st = picks_of(stack@);
        let ghost upto = nodes.take(i + 1);
        proof {
            assert(upto.drop_last() =~= nodes.take(i as int));
            assert(upto.last() == expr.nodes@[i as int].deep_view());
        }
        match &expr.nodes[i] {
            Node::Req(t) => {
                let leaf: Option<Vec<String>> = if is_accepted(t, accepted) {
                    let mut one: Vec<String> = Vec::new();
                    assert(one.deep_view().to_set() =~= Set::<Seq<char>>::empty());
                    let name = license_name(t);
                    add_text(&mut one, name.as_str());
                    Some(one)
                } else {
                    None
                };
                stack.push(leaf);
                assert(picks_of(stack@) =~= st.push(pick_of(leaf)));
            },
            node => {
                let and = matches!(node, Node::And);
                let b = match stack.pop() {
                    Some(b) => b,
                    None => {
                        proof {
                            fails_for_good(nodes, acc, i + 1);
                        }
                        return None;
                    },
                };
                let a = match stack.pop() {
                    Some(a) => a,
                    None => {
                        proof {
                            fails_for_good(nodes, acc, i + 1);
                        }
                        return None;
                    },
                };
                let joined = combine(and, a, b, accepted);
                stack.push(joined);
                assert(picks_of(stack@) =~= st.drop_last().drop_last().push(pick_of(joined)));
            },
        }
        i += 1;
    }
    assert(nodes.take(i as int) =~= nodes);
    match stack.pop() {
        Some(p) => p,
        None => None,
    }
}

/// Once an operator has lacked an operand, nothing is chosen, whatever follows.
proof fn fails_for_good(nodes: Seq<NodeView>, acc: Seq<AcceptView>, i: int)
    requires
        0 <= i <= nodes.len(),
        stack_after(nodes.take(i), acc) is None,
    ensures
        stack_after(nodes, acc) is None,
    decreases nodes.len(),
{
    if i < nodes.len() {
        assert(nodes.drop_last().take(i) =~= nodes.take(i));
        fails_for_good(nodes.drop_last(), acc, i);
    } else {
        assert(nodes.take(i) =~= nodes);
    }
}

// ---------------------------------------------------------------- exceptions

/// The exceptions of the terms whose license is in the set, in the order of the terms.
pub open spec fn exceptions_in(nodes: Seq<NodeView>, set: Seq<Seq<char>>) -> Seq<Seq<char>>
    decreases nodes.len(),
{
    if nodes.len() == 0 {
        Seq::empty()
    } else {
        let rest = exceptions_in(nodes.drop_last(), set);
        match nodes.last() {
            NodeView::Req(t) => match t.exception {
                Some(e) => if set.contains(name_of(t)) {
                    rest.push(e)
                } else {
                    rest
                },
                None => rest,
            },
            _ => rest,
        }
    }
}

/// The exception ids (from `A WITH exception`) attached to a license that was chosen, so
/// that their text ships too. A `WITH` on a license that `OR` dropped is not among them.
pub fn exceptions_for(expr: &Expression, chosen: &Vec<String>) -> (r: Vec<String>)
    ensures
        r.deep_view() == exceptions_in(expr.deep_view(), chosen.deep_view()),
{
    let mut out: Vec<String> = Vec::new();
    let ghost nodes = expr.deep_view();
    let ghost set = chosen.deep_view();
    let mut i: usize = 0;
    assert(out.deep_view() =~= exceptions_in(nodes.take(0), set));
    while i < expr.nodes.len()
        invariant
            nodes == expr.deep_view(),
            set == chosen.deep_view(),
            i <= expr.nodes@.len(),
            out.deep_view() == exceptions_in(nodes.take(i as int), set),
        decreases expr.nodes.len() - i,
    {
        let ghost upto = nodes.take(i + 1);
        let ghost o = out.deep_view();
        proof {
            assert(upto.drop_last() =~= nodes.take(i as int));
            assert(upto.last() == expr.nodes@[i as int].deep_view());
        }
        if let Node::Req(t) = &expr.nodes[i] {
            if let Some(e) = &t.exception {
                let name = license_name(t);
                if has(chosen, name.as_str()) {
                    out.push(owned(e.as_str()));
                    assert(out.deep_view() =~= o.push(e@));
                }
            }
        }
        i += 1;
    }
    assert(nodes.take(i as int) =~= nodes);
    out
}

// ---------------------------------------------------------------- laws

/// An expression as a tree.
pub enum Tree {
    Leaf(TermView),
    And(Box<Tree>, Box<Tree>),
    Or(Box<Tree>, Box<Tree>),
}

impl Tree {
    /// The tree in postfix order.
    pub open spec fn postfix(self) -> Seq<NodeView>
        decreases self,
    {
        match self {
            Tree::Leaf(t) => seq![NodeView::Req(t)],
            Tree::And(a, b) => (a.postfix() + b.postfix()).push(NodeView::And),
            Tree::Or(a, b) => (a.postfix() + b.postfix()).push(NodeView::Or),
        }
    }

    /// What is attributed: an accepted term, both sides of an `AND`, the preferred side
    /// of an `OR`.
    pub open spec fn pick(self, acc: Seq<AcceptView>) -> Pick
        decreases self,
    {
        match self {
            Tree::Leaf(t) => leaf_pick(t, acc),
            Tree::And(a, b) => both(a.pick(acc), b.pick(acc)),
            Tree::Or(a, b) => preferred(a.pick(acc), b.pick(acc), acc),
        }
    }

    /// The accepted set covers the expression: a term is covered if it is accepted, an
    /// `AND` if both sides are, an `OR` if one is.
    pub open spec fn covered(self, acc: Seq<AcceptView>) -> bool
        decreases self,
    {
        match self {
            Tree::Leaf(t) => accepted_term(t, acc),
            Tree::And(a, b) => a.covered(acc) && b.covered(acc),
            Tree::Or(a, b) => a.covered(acc) || b.covered(acc),
        }
    }

    /// Accepted terms with licenses in the set are enough to cover the expression.
    pub open spec fn covered_within(self, acc: Seq<AcceptView>, set: Set<Seq<char>>) -> bool
        decreases self,
    {
        match self {
            Tree::Leaf(t) => accepted_term(t, acc) && set.contains(name_of(t)),
            Tree::And(a, b) => a.covered_within(acc, set) && b.covered_within(acc, set),
            Tree::Or(a, b) => a.covered_within(acc, set) || b.covered_within(acc, set),
        }
    }

    /// The term stands in the expression.
    pub open spec fn has_term(self, t: TermView) -> bool
        decreases self,
    {
        match self {
            Tree::Leaf(u) => u == t,
            Tree::And(a, b) => a.has_term(t) || b.has_term(t),
            Tree::Or(a, b) => a.has_term(t) || b.has_term(t),
        }
    }
}

/// Reading a tree's postfix form behind other nodes puts its pick on the stack.
proof fn postfix_pushes(before: Seq<NodeView>, tree: Tree, acc: Seq<AcceptView>)
    requires
        stack_after(before, acc) is Some,
    ensures
        stack_after(before + tree.postfix(), acc) == Some(
            stack_after(before, acc)->0.push(tree.pick(acc)),
        ),
    decreases tree,
{
    let st = stack_after(before, acc)->0;
    let all = before + tree.postfix();
    match tree {
        Tree::Leaf(t) => {
            assert(all.drop_last() =~= before);
            assert(all.last() == NodeView::Req(t));
        },
        Tree::And(a, b) => {
            postfix_pushes(before, *a, acc);
            postfix_pushes(before + a.postfix(), *b, acc);
            assert(all.drop_last() =~= before + a.postfix() + b.postfix());
            assert(all.last() == NodeView::And);
            let two = st.push(a.pick(acc)).push(b.pick(acc));
            assert(two.drop_last().drop_last() =~= st);
        },
        Tree::Or(a, b) => {
            postfix_pushes(before, *a, acc);
            postfix_pushes(before + a.postfix(), *b, acc);
            assert(all.drop_last() =~= before + a.postfix() + b.postfix());
            assert(all.last() == NodeView::Or);
            let two = st.push(a.pick(acc)).push(b.pick(acc));
            assert(two.drop_last().drop_last() =~= st);
        },
    }
}

/// Evaluating an expression in postfix order gives what its tree picks: `AND` keeps both
/// sides and `OR` the preferred one, however deep the expression.
pub proof fn choice_follows_the_tree(tree: Tree, acc: Seq<AcceptView>)
    ensures
        chosen(tree.postfix(), acc) == tree.pick(acc),
{
    postfix_pushes(Seq::empty(), tree, acc);
    assert(Seq::empty() + tree.postfix() =~= tree.postfix());
}

/// An expression is attributed exactly when the accepted set covers it.
pub proof fn chosen_exactly_when_covered(tree: Tree, acc: Seq<AcceptView>)
    ensures
        chosen(tree.postfix(), acc) is Some <==> tree.covered(acc),
{
    choice_follows_the_tree(tree, acc);
    pick_exactly_when_covered(tree, acc);
}

proof fn pick_exactly_when_covered(tree: Tree, acc: Seq<AcceptView>)
    ensures
        tree.pick(acc) is Some <==> tree.covered(acc),
    decreases tree,
{
    match tree {
        Tree::Leaf(t) => {},
        Tree::And(a, b) => {
            pick_exactly_when_covered(*a, acc);
            pick_exactly_when_covered(*b, acc);
        },
        Tree::Or(a, b) => {
            pick_exactly_when_covered(*a, acc);
            pick_exactly_when_covered(*b, acc);
        },
    }
}

/// Every license that is attributed is the license of an accepted term of the expression.
pub proof fn chosen_are_accepted_terms(tree: Tree, acc: Seq<AcceptView>, name: Seq<char>)
    requires
        chosen(tree.postfix(), acc) is Some,
        chosen(tree.postfix(), acc)->0.contains(name),
    ensures
        exists|t: TermView| #[trigger]
            tree.has_term(t) && accepted_term(t, acc) && name_of(t) == name,
{
    choice_follows_the_tree(tree, acc);
    pick_from_terms(tree, acc, name);
}

proof fn pick_from_terms(tree: Tree, acc: Seq<AcceptView>, name: Seq<char>)
    requires
        tree.pick(acc) is Some,
        tree.pick(acc)->0.contains(name),
    ensures
        exists|t: TermView| #[trigger]
            tree.has_term(t) && accepted_term(t, acc) && name_of(t) == name,
    decreases tree,
{
    match tree {
        Tree::Leaf(t) => {
            assert(tree.has_term(t));
        },
        Tree::And(a, b) => {
            if a.pick(acc)->0.contains(name) {
                pick_from_terms(*a, acc, name);
                let t = choose|t: TermView| #[trigger]
                    a.has_term(t) && accepted_term(t, acc) && name_of(t) == name;
                assert(tree.has_term(t));
            } else {
                pick_from_terms(*b, acc, name);
                let t = choose|t: TermView| #[trigger]
                    b.has_term(t) && accepted_term(t, acc) && name_of(t) == name;
                assert(tree.has_term(t));
            }
        },
        Tree::Or(a, b) => {
            if tree.pick(acc) == a.pick(acc) {
                pick_from_terms(*a, acc, name);
                let t = choose|t: TermView| #[trigger]
                    a.has_term(t) && accepted_term(t, acc) && name_of(t) == name;
                assert(tree.has_term(t));
            } else {
                pick_from_terms(*b, acc, name);
                let t = choose|t: TermView| #[trigger]
                    b.has_term(t) && accepted_term(t, acc) && name_of(t) == name;
                assert(tree.has_term(t));
            }
        },
    }
}

/// Licenses that are attributed are enough: there is at least one, and the accepted terms
/// under them cover the expression without any other.
pub proof fn chosen_cover_by_themselves(tree: Tree, acc: Seq<AcceptView>)
    requires
        chosen(tree.postfix(), acc) is Some,
    ensures
        exists|name: Seq<char>| #[trigger] chosen(tree.postfix(), acc)->0.contains(name),
        tree.covered_within(acc, chosen(tree.postfix(), acc)->0),
{
    choice_follows_the_tree(tree, acc);
    pick_covers(tree, acc);
}

proof fn pick_covers(tree: Tree, acc: Seq<AcceptView>)
    requires
        tree.pick(acc) is Some,
    ensures
        exists|name: Seq<char>| #[trigger] tree.pick(acc)->0.contains(name),
        tree.covered_within(acc, tree.pick(acc)->0),
    decreases tree,
{
    let set = tree.pick(acc)->0;
    match tree {
        Tree::Leaf(t) => {
            assert(set.contains(name_of(t)));
        },
        Tree::And(a, b) => {
            pick_covers(*a, acc);
            pick_covers(*b, acc);
            let x = a.pick(acc)->0;
            let name = choose|name: Seq<char>| #[trigger] x.contains(name);
            assert(set.contains(name));
            larger_set_covers_more(*a, acc, x, set);
            larger_set_covers_more(*b, acc, b.pick(acc)->0, set);
        },
        Tree::Or(a, b) => {
            if tree.pick(acc) == a.pick(acc) {
                pick_covers(*a, acc);
            } else {
                pick_covers(*b, acc);
            }
        },
    }
}

proof fn larger_set_covers_more(
    tree: Tree,
    acc: Seq<AcceptView>,
    x: Set<Seq<char>>,
    y: Set<Seq<char>>,
)
    requires
        x.subset_of(y),
        tree.covered_within(acc, x),
    ensures
        tree.covered_within(acc, y),
    decreases tree,
{
    match tree {
        Tree::Leaf(t) => {},
        Tree::And(a, b) => {
            larger_set_covers_more(*a, acc, x, y);
            larger_set_covers_more(*b, acc, x, y);
        },
        Tree::Or(a, b) => {
            if a.covered_within(acc, x) {
                larger_set_covers_more(*a, acc, x, y);
            } else {
                larger_set_covers_more(*b, acc, x, y);
            }
        },
    }
}

/// A pairing `A WITH B` in the accepted list allows `A` only together with `B`.
pub proof fn pairing_allows_only_itself(
    a: AcceptView,
    license: Seq<char>,
    exception: Option<Seq<char>>,
)
    requires
        a.exception is Some,
        allowed_by(a, license, exception),
    ensures
        license == a.license && exception == a.exception,
{
}

/// Entries appended to the accepted list keep every term that was accepted.
pub proof fn longer_list_accepts_more(t: TermView, acc: Seq<AcceptView>, extra: Seq<AcceptView>)
    requires
        accepted_term(t, acc),
    ensures
        accepted_term(t, acc + extra),
{
    let i = choose|i: int|
        0 <= i < acc.len() && allowed_by(#[trigger] acc[i], name_of(t), t.exception);
    assert((acc + extra)[i] == acc[i]);
}

/// Entries appended to the accepted list keep every expression that was covered: what an
/// exception adds never rejects a crate.
pub proof fn longer_list_covers_more(tree: Tree, acc: Seq<AcceptView>, extra: Seq<AcceptView>)
    requires
        tree.covered(acc),
    ensures
        tree.covered(acc + extra),
    decreases tree,
{
    match tree {
        Tree::Leaf(t) => longer_list_accepts_more(t, acc, extra),
        Tree::And(a, b) => {
            longer_list_covers_more(*a, acc, extra);
            longer_list_covers_more(*b, acc, extra);
        },
        Tree::Or(a, b) => {
            if a.covered(acc) {
                longer_list_covers_more(*a, acc, extra);
            } else {
                longer_list_covers_more(*b, acc, extra);
            }
        },
    }
}

/// Of two sides of an `OR`, one that the accepted list knows beats one that only the
/// appended entries know, on whichever side it stands.
pub proof fn appended_entries_lose(
    x: Set<Seq<char>>,
    y: Set<Seq<char>>,
    acc: Seq<AcceptView>,
    extra: Seq<AcceptView>,
)
    requires
        acc.len() + extra.len() < usize::MAX,
        exists|i: int| 0 <= i < acc.len() && x.contains(#[trigger] acc[i].license),
        forall|i: int| 0 <= i < acc.len() ==> !y.contains(#[trigger] acc[i].license),
    ensures
        preferred(Some(x), Some(y), acc + extra) == Some(x),
        preferred(Some(y), Some(x), acc + extra) == Some(x),
{
    let all = acc + extra;
    let i = choose|i: int| 0 <= i < acc.len() && x.contains(#[trigger] acc[i].license);
    assert(all[i] == acc[i]);
    best_from_bound(x, all, 0, i);
    assert forall|j: int| 0 <= j < acc.len() implies !y.contains(#[trigger] all[j].license) by {
        assert(all[j] == acc[j]);
    }
    best_from_beyond(y, all, 0, acc.len() as int);
}

proof fn best_from_bound(set: Set<Seq<char>>, acc: Seq<AcceptView>, from: int, i: int)
    requires
        0 <= from <= i < acc.len(),
        set.contains(acc[i].license),
    ensures
        best_from(set, acc, from) <= i,
    decreases i - from,
{
    if !set.contains(acc[from].license) {
        best_from_bound(set, acc, from + 1, i);
    }
}

proof fn best_from_beyond(set: Set<Seq<char>>, acc: Seq<AcceptView>, from: int, i: int)
    requires
        0 <= from <= i <= acc.len() <= usize::MAX,
        forall|j: int| from <= j < i ==> !set.contains(#[trigger] acc[j].license),
    ensures
        best_from(set, acc, from) >= i,
    decreases acc.len() - from,
{
    if from < acc.len() && !set.contains(acc[from].license) {
        if from < i {
            best_from_beyond(set, acc, from + 1, i);
        } else {
            best_from_beyond(set, acc, from + 1, from + 1);
        }
    }
}

} // verus!
