//! Sets of texts, kept as lists in ascending order, and tables keyed by text.

use vstd::prelude::*;
use vstd::string::*;
use crate::text::{before, owned, precedes, precedes_asymmetric, precedes_irreflexive, precedes_total, precedes_transitive, same};

verus! {

/// Every text comes before all that stand after it; so none occurs twice.
pub open spec fn sorted(s: Seq<Seq<char>>) -> bool {
    forall|i: int, j: int| 0 <= i < j < s.len() ==> precedes(#[trigger] s[i], #[trigger] s[j])
}

/// No text comes before one that stands ahead of it.
pub open spec fn ascending(s: Seq<Seq<char>>) -> bool {
    forall|i: int, j: int| 0 <= i < j < s.len() ==> !precedes(#[trigger] s[j], #[trigger] s[i])
}

/// A sorted list is fixed by what it holds: two that hold the same texts are equal.
pub proof fn sorted_is_unique(a: Seq<Seq<char>>, b: Seq<Seq<char>>)
    requires
        sorted(a),
        sorted(b),
        a.to_set() == b.to_set(),
    ensures
        a == b,
    decreases a.len(),
{
    if a.len() == 0 {
        if b.len() > 0 {
            assert(b.to_set().contains(b[0]));
            assert(a.contains(b[0]));
        }
        assert(a =~= b);
    } else {
        assert(a.to_set().contains(a.last()));
        assert(b.contains(a.last()));
        assert(b.to_set().contains(b.last()));
        assert(a.contains(b.last()));
        let i = choose|i: int| 0 <= i < a.len() && a[i] == b.last();
        let j = choose|j: int| 0 <= j < b.len() && b[j] == a.last();
        if i < a.len() - 1 && j < b.len() - 1 {
            precedes_asymmetric(a[i], a.last());
        }
        if i < a.len() - 1 || j < b.len() - 1 {
            precedes_irreflexive(a.last());
            precedes_irreflexive(b.last());
        }
        assert(a.last() == b.last());
        let x = a.drop_last();
        let y = b.drop_last();
        assert forall|t: Seq<char>| x.to_set().contains(t) == y.to_set().contains(t) by {
            if x.contains(t) {
                let m = choose|m: int| 0 <= m < x.len() && x[m] == t;
                assert(a[m] == t);
                assert(a.to_set().contains(t));
                assert(b.contains(t));
                let n = choose|n: int| 0 <= n < b.len() && b[n] == t;
                precedes_irreflexive(t);
                assert(n < y.len());
                assert(y[n] == t);
            }
            if y.contains(t) {
                let m = choose|m: int| 0 <= m < y.len() && y[m] == t;
                assert(b[m] == t);
                assert(b.to_set().contains(t));
                assert(a.contains(t));
                let n = choose|n: int| 0 <= n < a.len() && a[n] == t;
                precedes_irreflexive(t);
                assert(n < x.len());
                assert(x[n] == t);
            }
        }
        assert(x.to_set() =~= y.to_set());
        sorted_is_unique(x, y);
        assert(a =~= x.push(a.last()));
        assert(b =~= y.push(b.last()));
    }
}

/// The texts of a set in ascending order.
pub open spec fn in_order(set: Set<Seq<char>>) -> Seq<Seq<char>> {
    choose|s: Seq<Seq<char>>| sorted(s) && s.to_set() == set
}

/// A sorted list is the texts that it holds in ascending order.
pub proof fn sorted_is_in_order(s: Seq<Seq<char>>)
    requires
        sorted(s),
    ensures
        in_order(s.to_set()) == s,
{
    let t = in_order(s.to_set());
    assert(sorted(s) && s.to_set() == s.to_set());
    assert(sorted(t) && t.to_set() == s.to_set());
    sorted_is_unique(t, s);
}

/// A text put into a sorted list that does not hold it.
proof fn sorted_with(s: Seq<Seq<char>>, x: Seq<char>) -> (t: Seq<Seq<char>>)
    requires
        sorted(s),
        !s.contains(x),
    ensures
        sorted(t),
        forall|y: Seq<char>| #[trigger] t.contains(y) <==> s.contains(y) || y == x,
    decreases s.len(),
{
    if s.len() == 0 || precedes(s.last(), x) {
        let t = s.push(x);
        assert forall|a: int, b: int| 0 <= a < b < t.len() implies precedes(
            #[trigger] t[a],
            #[trigger] t[b],
        ) by {
            if b == s.len() && a < s.len() - 1 {
                precedes_transitive(s[a], s.last(), x);
            }
        }
        assert forall|y: Seq<char>| #[trigger] t.contains(y) == (s.contains(y) || y == x) by {
            if s.contains(y) {
                let k = choose|k: int| 0 <= k < s.len() && s[k] == y;
                assert(t[k] == y);
            }
            if y == x {
                assert(t[s.len() as int] == y);
            }
        }
        t
    } else {
        let r = s.drop_last();
        let l = s.last();
        assert(s[s.len() - 1] == l);
        assert(!r.contains(x)) by {
            if r.contains(x) {
                let k = choose|k: int| 0 <= k < r.len() && r[k] == x;
                assert(s[k] == x);
            }
        }
        let u = sorted_with(r, x);
        precedes_total(l, x);
        let t = u.push(l);
        assert forall|a: int, b: int| 0 <= a < b < t.len() implies precedes(
            #[trigger] t[a],
            #[trigger] t[b],
        ) by {
            if b == u.len() {
                assert(u.contains(u[a]));
                if u[a] != x {
                    assert(r.contains(u[a]));
                    let k = choose|k: int| 0 <= k < r.len() && r[k] == u[a];
                    assert(s[k] == u[a]);
                }
            }
        }
        assert forall|y: Seq<char>| #[trigger] t.contains(y) == (s.contains(y) || y == x) by {
            assert(u.contains(y) == (r.contains(y) || y == x));
            if u.contains(y) {
                let k = choose|k: int| 0 <= k < u.len() && u[k] == y;
                assert(t[k] == y);
            }
            if r.contains(y) {
                let k = choose|k: int| 0 <= k < r.len() && r[k] == y;
                assert(s[k] == y);
            }
            if s.contains(y) && y != l {
                let k = choose|k: int| 0 <= k < s.len() && s[k] == y;
                assert(r[k] == y);
            }
            if y == l {
                assert(t[u.len() as int] == y);
            }
        }
        t
    }
}

/// A finite set has a list in ascending order, and `in_order` is that list.
pub proof fn in_order_lists(set: Set<Seq<char>>)
    requires
        set.finite(),
    ensures
        sorted(in_order(set)),
        in_order(set).to_set() == set,
    decreases set.len(),
{
    if set.len() == 0 {
        let e = Seq::<Seq<char>>::empty();
        assert(e.to_set() =~= set);
        assert(sorted(e) && e.to_set() == set);
    } else {
        let x = set.choose();
        let rest = set.remove(x);
        in_order_lists(rest);
        let s = in_order(rest);
        assert(!s.contains(x)) by {
            if s.contains(x) {
                assert(s.to_set().contains(x));
            }
        }
        let t = sorted_with(s, x);
        assert forall|y: Seq<char>| t.to_set().contains(y) == set.contains(y) by {
            assert(s.to_set().contains(y) == rest.contains(y));
            assert(t.contains(y) == (s.contains(y) || y == x));
        }
        assert(t.to_set() =~= set);
        assert(sorted(t) && t.to_set() == set);
    }
}

/// A text put where it belongs leaves a sorted list sorted.
pub proof fn insert_keeps_sorted(s: Seq<Seq<char>>, i: int, x: Seq<char>)
    requires
        sorted(s),
        0 <= i <= s.len(),
        i > 0 ==> precedes(s[i - 1], x),
        i < s.len() ==> precedes(x, s[i]),
    ensures
        sorted(s.insert(i, x)),
{
    let t = s.insert(i, x);
    assert forall|a: int, b: int| 0 <= a < b < t.len() implies precedes(
        #[trigger] t[a],
        #[trigger] t[b],
    ) by {
        if a < i && b == i {
            if a < i - 1 {
                precedes_transitive(s[a], s[i - 1], x);
            }
        } else if a == i && b > i {
            if b - 1 > i {
                precedes_transitive(x, s[i], s[b - 1]);
            }
        } else if a < i && b > i {
            assert(t[a] == s[a] && t[b] == s[b - 1]);
        } else if b < i {
            assert(t[a] == s[a] && t[b] == s[b]);
        } else {
            assert(t[a] == s[a - 1] && t[b] == s[b - 1]);
        }
    }
}

/// Whether a text is in the list.
pub fn has(set: &Vec<String>, x: &str) -> (r: bool)
    ensures
        r == set.deep_view().contains(x@),
{
    let mut i: usize = 0;
    while i < set.len()
        invariant
            i <= set@.len(),
            forall|j: int| 0 <= j < i ==> set.deep_view()[j] != x@,
        decreases set.len() - i,
    {
        if same(set[i].as_str(), x) {
            assert(set.deep_view()[i as int] == x@);
            return true;
        }
        i += 1;
    }
    false
}

/// Adds a text to a set.
pub fn add_text(set: &mut Vec<String>, x: &str)
    requires
        sorted(old(set).deep_view()),
    ensures
        sorted(final(set).deep_view()),
        final(set).deep_view().to_set() == old(set).deep_view().to_set().insert(x@),
{
    let mut i: usize = 0;
    let ghost s = set.deep_view();
    while i < set.len() && before(set[i].as_str(), x)
        invariant
            set.deep_view() == s,
            i <= set@.len(),
            forall|j: int| 0 <= j < i ==> precedes(#[trigger] s[j], x@),
        decreases set.len() - i,
    {
        i += 1;
    }
    if i < set.len() && same(set[i].as_str(), x) {
        proof {
            assert(s[i as int] == x@);
            assert(s.to_set().contains(x@));
            assert(s.to_set().insert(x@) =~= s.to_set());
        }
        return ;
    }
    proof {
        if i < s.len() {
            precedes_total(s[i as int], x@);
        }
        insert_keeps_sorted(s, i as int, x@);
    }
    set.insert(i, owned(x));
    proof {
        let t = s.insert(i as int, x@);
        assert(set.deep_view() =~= t);
        assert forall|y: Seq<char>| t.to_set().contains(y) == s.to_set().insert(x@).contains(y) by {
            if t.contains(y) {
                let k = choose|k: int| 0 <= k < t.len() && t[k] == y;
                if k < i {
                    assert(s[k] == y);
                } else if k > i {
                    assert(s[k - 1] == y);
                }
            }
            if s.contains(y) {
                let k = choose|k: int| 0 <= k < s.len() && s[k] == y;
                if k < i {
                    assert(t[k] == y);
                } else {
                    assert(t[k + 1] == y);
                }
            }
            if y == x@ {
                assert(t[i as int] == y);
            }
        }
        assert(t.to_set() =~= s.to_set().insert(x@));
    }
}

/// Adds every text of a list to a set.
pub fn add_all(set: &mut Vec<String>, more: &Vec<String>)
    requires
        sorted(old(set).deep_view()),
    ensures
        sorted(final(set).deep_view()),
        final(set).deep_view().to_set() == old(set).deep_view().to_set().union(
            more.deep_view().to_set(),
        ),
{
    let mut i: usize = 0;
    let ghost s = set.deep_view();
    let ghost m = more.deep_view();
    assert(m.take(0).to_set() =~= Set::<Seq<char>>::empty());
    assert(s.to_set().union(m.take(0).to_set()) =~= s.to_set());
    while i < more.len()
        invariant
            m == more.deep_view(),
            i <= more@.len(),
            sorted(set.deep_view()),
            set.deep_view().to_set() == s.to_set().union(m.take(i as int).to_set()),
        decreases more.len() - i,
    {
        add_text(set, more[i].as_str());
        proof {
            assert(m.take(i + 1) =~= m.take(i as int).push(m[i as int]));
            m.take(i as int).lemma_push_to_set_commute(m[i as int]);
            assert(s.to_set().union(m.take(i as int).to_set()).insert(m[i as int]) =~= s.to_set().union(
                m.take(i + 1).to_set(),
            ));
        }
        i += 1;
    }
    assert(m.take(i as int) =~= m);
}

/// The texts of a list in ascending order, each as often as it occurs.
pub fn sort_texts(list: Vec<String>) -> (r: Vec<String>)
    ensures
        ascending(r.deep_view()),
        r.deep_view().to_multiset() == list.deep_view().to_multiset(),
{
    let mut out: Vec<String> = Vec::new();
    let ghost all = list.deep_view();
    let mut k: usize = 0;
    assert(all.take(0) =~= out.deep_view());
    while k < list.len()
        invariant
            all == list.deep_view(),
            k <= list@.len(),
            ascending(out.deep_view()),
            out.deep_view().to_multiset() == all.take(k as int).to_multiset(),
        decreases list.len() - k,
    {
        let x = list[k].as_str();
        let ghost s = out.deep_view();
        let mut i: usize = out.len();
        while i > 0 && before(x, out[i - 1].as_str())
            invariant
                out.deep_view() == s,
                ascending(s),
                i <= out@.len(),
                forall|j: int| i <= j < s.len() ==> precedes(x@, #[trigger] s[j]),
            decreases i,
        {
            i -= 1;
        }
        out.insert(i, owned(x));
        proof {
            let t = s.insert(i as int, x@);
            assert(out.deep_view() =~= t);
            assert forall|a: int, b: int| 0 <= a < b < t.len() implies !precedes(
                #[trigger] t[b],
                #[trigger] t[a],
            ) by {
                if b == i {
                    assert(t[a] == s[a]);
                    if precedes(x@, s[a]) {
                        if a < i - 1 {
                            precedes_total(s[a], s[i - 1]);
                            if s[a] != s[i - 1] {
                                precedes_transitive(x@, s[a], s[i - 1]);
                            }
                        }
                    }
                } else if a == i {
                    assert(t[b] == s[b - 1]);
                    precedes_asymmetric(x@, s[b - 1]);
                } else {
                    let a0 = if a < i { a } else { a - 1 };
                    let b0 = if b < i { b } else { b - 1 };
                    assert(t[a] == s[a0] && t[b] == s[b0]);
                }
            }
            vstd::seq_lib::to_multiset_insert(s, i as int, x@);
            assert(all.take(k + 1) =~= all.take(k as int).push(x@));
            vstd::seq_lib::to_multiset_build(all.take(k as int), x@);
        }
        k += 1;
    }
    assert(all.take(k as int) =~= all);
    out
}

// ---------------------------------------------------------------- tables

/// The keys of a list of rows, in order.
pub open spec fn keys_of<V>(rows: Seq<(Seq<char>, V)>) -> Seq<Seq<char>> {
    Seq::new(rows.len(), |i: int| rows[i].0)
}

/// The value in the first row with a key.
pub open spec fn at<V>(rows: Seq<(Seq<char>, V)>, k: Seq<char>) -> Option<V>
    decreases rows.len(),
{
    if rows.len() == 0 {
        None
    } else if rows[0].0 == k {
        Some(rows[0].1)
    } else {
        at(rows.drop_first(), k)
    }
}

/// A key leads to the value of its first row; one without a row leads to nothing.
pub proof fn at_is_first<V>(rows: Seq<(Seq<char>, V)>, k: Seq<char>)
    ensures
        at(rows, k) is Some <==> keys_of(rows).contains(k),
        at(rows, k) matches Some(v) ==> exists|i: int|
            #![trigger rows[i]]
            0 <= i < rows.len() && rows[i] == (k, v) && forall|j: int|
                0 <= j < i ==> (#[trigger] rows[j]).0 != k,
    decreases rows.len(),
{
    let ks = keys_of(rows);
    if rows.len() > 0 {
        if rows[0].0 == k {
            assert(ks[0] == k);
            assert(rows[0] == (k, rows[0].1));
        } else {
            let t = rows.drop_first();
            at_is_first(t, k);
            if ks.contains(k) {
                let i = choose|i: int| 0 <= i < ks.len() && ks[i] == k;
                assert(keys_of(t)[i - 1] == k);
            }
            if at(rows, k) is Some {
                let v = at(rows, k)->0;
                let i = choose|i: int|
                    #![trigger t[i]]
                    0 <= i < t.len() && t[i] == (k, v) && forall|j: int|
                        0 <= j < i ==> (#[trigger] t[j]).0 != k;
                assert(ks[i + 1] == k);
                assert(rows[i + 1] == (k, v));
                assert forall|j: int| 0 <= j < i + 1 implies (#[trigger] rows[j]).0 != k by {
                    if j > 0 {
                        assert(t[j - 1].0 != k);
                    }
                }
            }
        }
    }
}

/// With keys in ascending order, each row is what its key leads to.
pub proof fn row_at<V>(rows: Seq<(Seq<char>, V)>, i: int)
    requires
        sorted(keys_of(rows)),
        0 <= i < rows.len(),
    ensures
        at(rows, rows[i].0) == Some(rows[i].1),
{
    let k = rows[i].0;
    let ks = keys_of(rows);
    at_is_first(rows, k);
    assert(ks[i] == k);
    let v = at(rows, k)->0;
    let m = choose|m: int|
        #![trigger rows[m]]
        0 <= m < rows.len() && rows[m] == (k, v) && forall|j: int|
            0 <= j < m ==> (#[trigger] rows[j]).0 != k;
    assert(ks[m] == k);
    precedes_irreflexive(k);
    assert(m == i);
}

/// Rows with ascending keys are fixed by what each key leads to.
pub proof fn rows_are_unique<V>(a: Seq<(Seq<char>, V)>, b: Seq<(Seq<char>, V)>)
    requires
        sorted(keys_of(a)),
        sorted(keys_of(b)),
        forall|k: Seq<char>| at(a, k) == at(b, k),
    ensures
        a == b,
{
    let x = keys_of(a);
    let y = keys_of(b);
    assert forall|k: Seq<char>| x.to_set().contains(k) == y.to_set().contains(k) by {
        at_is_first(a, k);
        at_is_first(b, k);
    }
    assert(x.to_set() =~= y.to_set());
    sorted_is_unique(x, y);
    assert forall|i: int| 0 <= i < a.len() implies a[i] == b[i] by {
        assert(x[i] == y[i]);
        row_at(a, i);
        row_at(b, i);
    }
    assert(a =~= b);
}

/// The rows, with ascending keys, in which each key leads to what a function gives.
pub open spec fn table_of<V>(f: spec_fn(Seq<char>) -> Option<V>) -> Seq<(Seq<char>, V)> {
    choose|rows: Seq<(Seq<char>, V)>|
        sorted(keys_of(rows)) && forall|k: Seq<char>| #[trigger] at(rows, k) == f(k)
}

/// Rows with ascending keys in which each key leads to what a function gives are the
/// table of that function.
pub proof fn rows_are_table<V>(rows: Seq<(Seq<char>, V)>, f: spec_fn(Seq<char>) -> Option<V>)
    requires
        sorted(keys_of(rows)),
        forall|k: Seq<char>| #[trigger] at(rows, k) == f(k),
    ensures
        table_of(f) == rows,
{
    let t = table_of(f);
    assert(sorted(keys_of(t)) && forall|k: Seq<char>| #[trigger] at(t, k) == f(k));
    assert forall|k: Seq<char>| at(t, k) == at(rows, k) by {
        assert(at(t, k) == f(k));
        assert(at(rows, k) == f(k));
    }
    rows_are_unique(t, rows);
}

/// A row put where its key belongs, when no other has that key.
proof fn at_insert<V>(rows: Seq<(Seq<char>, V)>, i: int, k: Seq<char>, v: V, x: Seq<char>)
    requires
        0 <= i <= rows.len(),
        !keys_of(rows).contains(k),
    ensures
        at(rows.insert(i, (k, v)), x) == if x == k {
            Some(v)
        } else {
            at(rows, x)
        },
    decreases rows.len(),
{
    let t = rows.insert(i, (k, v));
    if i == 0 {
        assert(t.drop_first() =~= rows);
    } else {
        assert(t[0] == rows[0]);
        assert(t.drop_first() =~= rows.drop_first().insert(i - 1, (k, v)));
        assert(keys_of(rows)[0] == rows[0].0);
        assert forall|j: int| 0 <= j < rows.len() - 1 implies keys_of(rows.drop_first())[j] != k by {
            assert(keys_of(rows)[j + 1] != k);
        }
        at_insert(rows.drop_first(), i - 1, k, v, x);
    }
}

/// A row whose value is replaced, when no row before it has that key.
proof fn at_update<V>(rows: Seq<(Seq<char>, V)>, i: int, k: Seq<char>, v: V, x: Seq<char>)
    requires
        0 <= i < rows.len(),
        rows[i].0 == k,
        forall|j: int| 0 <= j < i ==> (#[trigger] rows[j]).0 != k,
    ensures
        at(rows.update(i, (k, v)), x) == if x == k {
            Some(v)
        } else {
            at(rows, x)
        },
    decreases rows.len(),
{
    let t = rows.update(i, (k, v));
    if i == 0 {
        assert(t.drop_first() =~= rows.drop_first());
    } else {
        assert(t[0] == rows[0]);
        assert(t.drop_first() =~= rows.drop_first().update(i - 1, (k, v)));
        assert forall|j: int| 0 <= j < i - 1 implies (#[trigger] rows.drop_first()[j]).0 != k by {
            assert(rows[j + 1].0 != k);
        }
        at_update(rows.drop_first(), i - 1, k, v, x);
    }
}

/// The value in the first row with a key.
pub fn lookup<'a, V: DeepView>(rows: &'a Vec<(String, V)>, k: &str) -> (r: Option<&'a V>)
    ensures
        r.deep_view() == at(rows.deep_view(), k@),
{
    let ghost all = rows.deep_view();
    let mut i: usize = 0;
    assert(all.skip(0) =~= all);
    while i < rows.len()
        invariant
            all == rows.deep_view(),
            i <= rows@.len(),
            at(all, k@) == at(all.skip(i as int), k@),
        decreases rows.len() - i,
    {
        let ghost t = all.skip(i as int);
        assert(t[0] == rows@[i as int].deep_view());
        assert(t.drop_first() =~= all.skip(i + 1));
        if same(rows[i].0.as_str(), k) {
            return Some(&rows[i].1);
        }
        i += 1;
    }
    None
}

/// Values by text, the keys in ascending order.
pub struct Table<V> {
    pub rows: Vec<(String, V)>,
}

impl<V: DeepView> DeepView for Table<V> {
    type V = Seq<(Seq<char>, V::V)>;

    open spec fn deep_view(&self) -> Seq<(Seq<char>, V::V)> {
        self.rows.deep_view()
    }
}

impl<V: DeepView> Table<V> {
    /// The keys stand in ascending order.
    pub open spec fn wf(self) -> bool {
        sorted(keys_of(self.deep_view()))
    }

    /// A table without rows.
    pub fn new() -> (r: Self)
        ensures
            r.wf(),
            r.deep_view() == Seq::<(Seq<char>, V::V)>::empty(),
    {
        let r = Table { rows: Vec::new() };
        assert(r.deep_view() =~= Seq::<(Seq<char>, V::V)>::empty());
        r
    }

    /// The value beside a key.
    pub fn get(&self, k: &str) -> (r: Option<&V>)
        ensures
            r.deep_view() == at(self.deep_view(), k@),
    {
        lookup(&self.rows, k)
    }

    /// Whether a key has a row.
    pub fn has_key(&self, k: &str) -> (r: bool)
        ensures
            r == keys_of(self.deep_view()).contains(k@),
    {
        proof {
            at_is_first(self.deep_view(), k@);
        }
        self.get(k).is_some()
    }

    /// Sets the value beside a key, in a new row if there is none.
    pub fn put(&mut self, k: &str, v: V)
        requires
            old(self).wf(),
        ensures
            final(self).wf(),
            forall|x: Seq<char>| #[trigger]
                at(final(self).deep_view(), x) == if x == k@ {
                    Some(v.deep_view())
                } else {
                    at(old(self).deep_view(), x)
                },
    {
        let ghost rows = self.deep_view();
        let ghost s = keys_of(rows);
        let mut i: usize = 0;
        while i < self.rows.len() && before(self.rows[i].0.as_str(), k)
            invariant
                rows == self.deep_view(),
                s == keys_of(rows),
                i <= self.rows@.len(),
                forall|j: int| 0 <= j < i ==> precedes(#[trigger] s[j], k@),
            decreases self.rows.len() - i,
        {
            assert(s[i as int] == self.rows@[i as int].0@);
            i += 1;
        }
        if i < self.rows.len() && same(self.rows[i].0.as_str(), k) {
            self.rows.set(i, (owned(k), v));
            proof {
                assert(self.deep_view() =~= rows.update(i as int, (k@, v.deep_view())));
                assert(keys_of(self.deep_view()) =~= s);
                assert forall|j: int| 0 <= j < i implies (#[trigger] rows[j]).0 != k@ by {
                    assert(precedes(s[j], k@));
                    precedes_irreflexive(k@);
                }
                assert forall|x: Seq<char>| #[trigger]
                    at(self.deep_view(), x) == if x == k@ {
                        Some(v.deep_view())
                    } else {
                        at(rows, x)
                    } by {
                    at_update(rows, i as int, k@, v.deep_view(), x);
                }
            }
        } else {
            proof {
                if i < s.len() {
                    assert(s[i as int] == self.rows@[i as int].0@);
                    precedes_total(s[i as int], k@);
                }
                insert_keeps_sorted(s, i as int, k@);
                assert forall|j: int| 0 <= j < s.len() implies s[j] != k@ by {
                    precedes_irreflexive(k@);
                    if j > i {
                        assert(precedes(s[i as int], s[j]));
                        precedes_asymmetric(k@, s[i as int]);
                    }
                }
            }
            self.rows.insert(i, (owned(k), v));
            proof {
                assert(self.deep_view() =~= rows.insert(i as int, (k@, v.deep_view())));
                assert(keys_of(self.deep_view()) =~= s.insert(i as int, k@));
                assert forall|x: Seq<char>| #[trigger]
                    at(self.deep_view(), x) == if x == k@ {
                        Some(v.deep_view())
                    } else {
                        at(rows, x)
                    } by {
                    at_insert(rows, i as int, k@, v.deep_view(), x);
                }
            }
        }
    }
}

} // verus!
