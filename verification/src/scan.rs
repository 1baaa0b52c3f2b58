//! Finding, splitting, trimming and joining in texts.

use vstd::prelude::*;
use vstd::string::*;
use crate::text::{alphanumeric, chars_of, code, text_between};

verus! {

/// The characters with the Unicode property `White_Space`.
pub open spec fn is_space(c: char) -> bool {
    let n = c as int;
    ||| 9 <= n <= 13
    ||| n == 32
    ||| n == 0x85
    ||| n == 0xa0
    ||| n == 0x1680
    ||| 0x2000 <= n <= 0x200a
    ||| n == 0x2028
    ||| n == 0x2029
    ||| n == 0x202f
    ||| n == 0x205f
    ||| n == 0x3000
}

/// Kinds of characters that a scan can run over.
#[derive(Clone, Copy)]
pub enum Class {
    /// White space.
    Space,
    /// Anything but white space.
    Ink,
    /// Anything but letters and numbers.
    Mark,
    /// Anything but the given character.
    Not(char),
}

impl Class {
    /// Whether the character is of this kind.
    pub open spec fn has(self, c: char) -> bool {
        match self {
            Class::Space => is_space(c),
            Class::Ink => !is_space(c),
            Class::Mark => !alphanumeric(c),
            Class::Not(d) => c != d,
        }
    }

    /// Whether the character is of this kind.
    pub fn holds(self, c: char) -> (r: bool)
        ensures
            r == self.has(c),
    {
        match self {
            Class::Space => white(c),
            Class::Ink => !white(c),
            Class::Mark => !c.is_alphanumeric(),
            Class::Not(d) => c != d,
        }
    }
}

/// Whether a character is white space.
pub fn white(c: char) -> (r: bool)
    ensures
        r == is_space(c),
{
    let n: u32 = code(c);
    (9 <= n && n <= 13) || n == 32 || n == 0x85 || n == 0xa0 || n == 0x1680 || (0x2000 <= n && n
        <= 0x200a) || n == 0x2028 || n == 0x2029 || n == 0x202f || n == 0x205f || n == 0x3000
}

/// How many characters at the start are of the kind, up to the first that is not.
pub open spec fn run_len(s: Seq<char>, k: Class) -> nat
    decreases s.len(),
{
    if s.len() > 0 && k.has(s[0]) {
        1 + run_len(s.drop_first(), k)
    } else {
        0
    }
}

/// `n` is the length of the run exactly when the first `n` characters are of the kind
/// and the next, if there is one, is not.
pub proof fn run_len_is(s: Seq<char>, k: Class, n: nat)
    ensures
        run_len(s, k) == n <==> {
            &&& n <= s.len()
            &&& forall|i: int| 0 <= i < n ==> k.has(#[trigger] s[i])
            &&& n < s.len() ==> !k.has(s[n as int])
        },
    decreases s.len(),
{
    if s.len() > 0 && k.has(s[0]) {
        let t = s.drop_first();
        if n > 0 {
            run_len_is(t, k, (n - 1) as nat);
            if run_len(s, k) == n {
                assert forall|i: int| 0 <= i < n implies k.has(#[trigger] s[i]) by {
                    if i > 0 {
                        assert(s[i] == t[i - 1]);
                    }
                }
            }
            if n <= s.len() && (forall|i: int| 0 <= i < n ==> k.has(#[trigger] s[i])) {
                assert forall|i: int| 0 <= i < n - 1 implies k.has(#[trigger] t[i]) by {
                    assert(t[i] == s[i + 1]);
                }
            }
        }
    }
}

/// The run at a position of a character list.
pub fn run_from(v: &Vec<char>, from: usize, k: Class) -> (n: usize)
    requires
        from <= v@.len(),
    ensures
        n == run_len(v@.skip(from as int), k),
        from + n <= v@.len(),
{
    let mut i: usize = from;
    while i < v.len() && k.holds(v[i])
        invariant
            from <= i <= v@.len(),
            forall|j: int| from <= j < i ==> k.has(#[trigger] v@[j]),
        decreases v.len() - i,
    {
        i += 1;
    }
    proof {
        let s = v@.skip(from as int);
        assert forall|j: int| 0 <= j < i - from implies k.has(#[trigger] s[j]) by {
            assert(s[j] == v@[from + j]);
        }
        run_len_is(s, k, (i - from) as nat);
    }
    i - from
}

/// The text without the characters of the kind at its end.
pub open spec fn drop_trailing(s: Seq<char>, k: Class) -> Seq<char>
    decreases s.len(),
{
    if s.len() > 0 && k.has(s.last()) {
        drop_trailing(s.drop_last(), k)
    } else {
        s
    }
}

/// The text without the characters of the kind at either end.
pub open spec fn trim_by(s: Seq<char>, k: Class) -> Seq<char> {
    drop_trailing(s.skip(run_len(s, k) as int), k)
}

/// The text without white space at either end.
pub open spec fn trimmed(s: Seq<char>) -> Seq<char> {
    trim_by(s, Class::Space)
}

/// Removes the characters of the kind from both ends of a part of a character list.
pub fn trim_range(v: &Vec<char>, from: usize, to: usize, k: Class) -> (r: String)
    requires
        from <= to <= v@.len(),
    ensures
        r@ == trim_by(v@.subrange(from as int, to as int), k),
{
    let mut i: usize = from;
    while i < to && k.holds(v[i])
        invariant
            from <= i <= to <= v@.len(),
            forall|j: int| from <= j < i ==> k.has(#[trigger] v@[j]),
        decreases to - i,
    {
        i += 1;
    }
    let ghost s = v@.subrange(from as int, to as int);
    proof {
        assert forall|j: int| 0 <= j < i - from implies k.has(#[trigger] s[j]) by {
            assert(s[j] == v@[from + j]);
        }
        run_len_is(s, k, (i - from) as nat);
        assert(s.skip(i - from) =~= v@.subrange(i as int, to as int));
    }
    let mut e: usize = to;
    while i < e && k.holds(v[e - 1])
        invariant
            i <= e <= to <= v@.len(),
            drop_trailing(v@.subrange(i as int, to as int), k) == drop_trailing(
                v@.subrange(i as int, e as int),
                k,
            ),
        decreases e - i,
    {
        proof {
            let t = v@.subrange(i as int, e as int);
            assert(t.last() == v@[e - 1]);
            assert(t.drop_last() =~= v@.subrange(i as int, e - 1));
        }
        e -= 1;
    }
    proof {
        let t = v@.subrange(i as int, e as int);
        if i < e {
            assert(t.last() == v@[e - 1]);
        }
    }
    text_between(v, i, e)
}

/// Removes white space from both ends (as `str::trim` does).
pub fn trim(s: &str) -> (r: String)
    ensures
        r@ == trimmed(s@),
{
    let v = chars_of(s);
    assert(v@.subrange(0, v@.len() as int) =~= v@);
    trim_range(&v, 0, v.len(), Class::Space)
}

// ---------------------------------------------------------------- searching

/// `p` stands in `s` at position `i`.
pub open spec fn occurs_at(s: Seq<char>, p: Seq<char>, i: int) -> bool {
    0 <= i && i + p.len() <= s.len() && s.subrange(i, i + p.len()) == p
}

/// `p` stands somewhere in `s`.
pub open spec fn contains(s: Seq<char>, p: Seq<char>) -> bool {
    exists|i: int| occurs_at(s, p, i)
}

/// `s` starts with `p`.
pub open spec fn starts(s: Seq<char>, p: Seq<char>) -> bool {
    occurs_at(s, p, 0)
}

/// A text contains what stands at its end.
pub proof fn behind_is_contained(a: Seq<char>, p: Seq<char>)
    ensures
        contains(a + p, p),
{
    assert((a + p).subrange(a.len() as int, a.len() as int + p.len()) =~= p);
    assert(occurs_at(a + p, p, a.len() as int));
}

/// What a text contains, it contains still when more is put behind it.
pub proof fn contained_stays(a: Seq<char>, b: Seq<char>, p: Seq<char>)
    requires
        contains(a, p),
    ensures
        contains(a + b, p),
{
    let i = choose|i: int| occurs_at(a, p, i);
    assert((a + b).subrange(i, i + p.len()) =~= a.subrange(i, i + p.len()));
    assert(occurs_at(a + b, p, i));
}

/// What a text contains, it contains still when more is put before it.
pub proof fn contained_behind(a: Seq<char>, b: Seq<char>, p: Seq<char>)
    requires
        contains(b, p),
    ensures
        contains(a + b, p),
{
    let i = choose|i: int| occurs_at(b, p, i);
    let k = a.len() + i;
    assert((a + b).subrange(k, k + p.len()) =~= b.subrange(i, i + p.len()));
    assert(occurs_at(a + b, p, k));
}

/// The first position from `i` on at which `p` stands in `s`.
pub open spec fn first_from(s: Seq<char>, p: Seq<char>, i: int) -> Option<int>
    decreases s.len() + 1 - i,
{
    if i + p.len() > s.len() {
        None
    } else if occurs_at(s, p, i) {
        Some(i)
    } else {
        first_from(s, p, i + 1)
    }
}

/// The first position at which `p` stands in `s`.
pub open spec fn first_at(s: Seq<char>, p: Seq<char>) -> Option<int> {
    first_from(s, p, 0)
}

/// `first_from` finds the least position, and finds none exactly when there is none.
pub proof fn first_from_is_least(s: Seq<char>, p: Seq<char>, i: int)
    requires
        0 <= i,
    ensures
        match first_from(s, p, i) {
            Some(j) => i <= j && occurs_at(s, p, j) && forall|m: int|
                i <= m < j ==> !occurs_at(s, p, m),
            None => forall|m: int| i <= m ==> !occurs_at(s, p, m),
        },
    decreases s.len() + 1 - i,
{
    if i + p.len() <= s.len() && !occurs_at(s, p, i) {
        first_from_is_least(s, p, i + 1);
    }
}

/// Whether `p` stands in the list at a position.
pub fn occurs(s: &Vec<char>, p: &Vec<char>, i: usize) -> (r: bool)
    ensures
        r == occurs_at(s@, p@, i as int),
{
    if i > s.len() || p.len() > s.len() - i {
        return false;
    }
    let mut j: usize = 0;
    let n: usize = s.len();
    while j < p.len()
        invariant
            n == s@.len(),
            j <= p@.len(),
            i + p@.len() <= s@.len(),
            forall|m: int| 0 <= m < j ==> s@[i + m] == p@[m],
        decreases p.len() - j,
    {
        if s[i + j] != p[j] {
            assert(s@.subrange(i as int, i + p@.len())[j as int] == s@[i + j]);
            return false;
        }
        j += 1;
    }
    assert(s@.subrange(i as int, i + p@.len()) =~= p@);
    true
}

/// The first position at which `p` stands in the list.
pub fn find(s: &Vec<char>, p: &Vec<char>) -> (r: Option<usize>)
    ensures
        match r {
            Some(i) => first_at(s@, p@) == Some(i as int) && i + p@.len() <= s@.len(),
            None => first_at(s@, p@) is None,
        },
{
    if p.len() > s.len() {
        return None;
    }
    let mut i: usize = 0;
    let last: usize = s.len() - p.len();
    while i <= last
        invariant
            last == s@.len() - p@.len(),
            i <= last + 1,
            first_at(s@, p@) == first_from(s@, p@, i as int),
        decreases last + 1 - i,
    {
        if occurs(s, p, i) {
            return Some(i);
        }
        if i == last {
            assert(first_from(s@, p@, last + 1) is None);
            return None;
        }
        i += 1;
    }
    None
}

/// Whether `p` stands somewhere in `s`.
pub fn has_text(s: &str, p: &str) -> (r: bool)
    ensures
        r == contains(s@, p@),
{
    let a = chars_of(s);
    let b = chars_of(p);
    proof {
        first_from_is_least(s@, p@, 0);
    }
    match find(&a, &b) {
        Some(_) => true,
        None => {
            assert forall|i: int| !occurs_at(s@, p@, i) by {}
            false
        },
    }
}

/// Whether `s` starts with `p`.
pub fn has_prefix(s: &str, p: &str) -> (r: bool)
    ensures
        r == starts(s@, p@),
{
    let a = chars_of(s);
    let b = chars_of(p);
    occurs(&a, &b, 0)
}

// ---------------------------------------------------------------- replacing

/// The text with every `p` (of at least one character), found from the left, replaced by `q`.
pub open spec fn replaced(s: Seq<char>, p: Seq<char>, q: Seq<char>) -> Seq<char>
    decreases s.len(),
{
    if s.len() == 0 || p.len() == 0 {
        s
    } else if starts(s, p) {
        q + replaced(s.skip(p.len() as int), p, q)
    } else {
        seq![s[0]] + replaced(s.drop_first(), p, q)
    }
}

/// Replaces every `p` by `q`, found from the left (as `str::replace` does).
pub fn replace(s: &str, p: &str, q: &str) -> (r: String)
    requires
        p@.len() > 0,
    ensures
        r@ == replaced(s@, p@, q@),
{
    let a = chars_of(s);
    let b = chars_of(p);
    let mut out = String::new();
    let mut i: usize = 0;
    assert(a@.skip(0) =~= a@);
    assert(out@ + replaced(s@, p@, q@) =~= replaced(s@, p@, q@));
    while i < a.len()
        invariant
            a@ == s@,
            b@ == p@,
            p@.len() > 0,
            i <= a@.len(),
            replaced(s@, p@, q@) == out@ + replaced(s@.skip(i as int), p@, q@),
        decreases a.len() - i,
    {
        let ghost t = s@.skip(i as int);
        let ghost o = out@;
        proof {
            assert(occurs_at(s@, p@, i as int) == starts(t, p@)) by {
                if i + p@.len() <= s@.len() {
                    assert(t.subrange(0, p@.len() as int) =~= s@.subrange(
                        i as int,
                        i + p@.len(),
                    ));
                }
            }
        }
        if occurs(&a, &b, i) {
            out.append(q);
            i += b.len();
            proof {
                assert(t.skip(p@.len() as int) =~= s@.skip(i as int));
                assert(o + (q@ + replaced(s@.skip(i as int), p@, q@)) =~= (o + q@) + replaced(
                    s@.skip(i as int),
                    p@,
                    q@,
                ));
            }
        } else {
            out.push(a[i]);
            i += 1;
            proof {
                assert(t.drop_first() =~= s@.skip(i as int));
                assert(o + (seq![t[0]] + replaced(s@.skip(i as int), p@, q@)) =~= o.push(t[0])
                    + replaced(s@.skip(i as int), p@, q@));
            }
        }
    }
    assert(s@.skip(i as int) =~= Seq::<char>::empty());
    assert(out@ + Seq::<char>::empty() =~= out@);
    out
}

// ---------------------------------------------------------------- splitting

/// A carriage return at the end taken off.
pub open spec fn without_cr(s: Seq<char>) -> Seq<char> {
    if s.len() > 0 && s.last() == '\r' {
        s.drop_last()
    } else {
        s
    }
}

/// The lines of a text: each ends before a line feed, with a carriage return before the
/// line feed taken off; what follows the last line feed is a line if it is not empty.
pub open spec fn lines_of(s: Seq<char>) -> Seq<Seq<char>>
    decreases s.len(),
{
    let n = run_len(s, Class::Not('\n')) as int;
    if s.len() == 0 {
        Seq::empty()
    } else if n >= s.len() {
        seq![s]
    } else {
        seq![without_cr(s.take(n))] + lines_of(s.skip(n + 1))
    }
}

/// The maximal runs of characters that are not white space.
pub open spec fn words_of(s: Seq<char>) -> Seq<Seq<char>>
    decreases s.len(),
    via words_decreases
{
    let t = s.skip(run_len(s, Class::Space) as int);
    let n = run_len(t, Class::Ink) as int;
    if t.len() == 0 {
        Seq::empty()
    } else {
        seq![t.take(n)] + words_of(t.skip(n))
    }
}

#[via_fn]
proof fn words_decreases(s: Seq<char>) {
    let m = run_len(s, Class::Space);
    run_len_is(s, Class::Space, m);
    let t = s.skip(m as int);
    let n = run_len(t, Class::Ink);
    run_len_is(t, Class::Ink, n);
    if t.len() > 0 {
        assert(t[0] == s[m as int]);
        assert(n > 0);
    }
}

/// The parts of a text between the occurrences of a character.
pub open spec fn parts_of(s: Seq<char>, c: char) -> Seq<Seq<char>>
    decreases s.len(),
{
    let n = run_len(s, Class::Not(c)) as int;
    if 0 <= n < s.len() {
        seq![s.take(n)] + parts_of(s.skip(n + 1), c)
    } else {
        seq![s]
    }
}

/// The lines of a text (as `str::lines` gives them).
pub fn lines(s: &str) -> (r: Vec<String>)
    ensures
        r.deep_view() == lines_of(s@),
{
    let v = chars_of(s);
    let mut out: Vec<String> = Vec::new();
    let mut i: usize = 0;
    assert(v@.skip(0) =~= v@);
    assert(out.deep_view() + lines_of(s@) =~= lines_of(s@));
    while i < v.len()
        invariant
            v@ == s@,
            i <= v@.len(),
            lines_of(s@) == out.deep_view() + lines_of(s@.skip(i as int)),
        decreases v.len() - i,
    {
        let ghost t = s@.skip(i as int);
        let ghost o = out.deep_view();
        let n: usize = run_from(&v, i, Class::Not('\n'));
        proof {
            run_len_is(t, Class::Not('\n'), n as nat);
        }
        if i + n == v.len() {
            let line = text_between(&v, i, v.len());
            assert(line@ =~= t);
            out.push(line);
            i = v.len();
            assert(s@.skip(i as int) =~= Seq::<char>::empty());
            assert(out.deep_view() =~= o.push(t));
            assert(o + seq![t] =~= o.push(t) + Seq::<Seq<char>>::empty());
        } else {
            let e: usize = if n > 0 && v[i + n - 1] == '\r' {
                i + n - 1
            } else {
                i + n
            };
            let line = text_between(&v, i, e);
            proof {
                assert(n > 0 ==> t.take(n as int).last() == s@[i + n - 1]);
                assert(line@ =~= without_cr(t.take(n as int)));
                assert(t.skip(n + 1) =~= s@.skip(i + n + 1));
            }
            out.push(line);
            i = i + n + 1;
            assert(out.deep_view() =~= o.push(line@));
            assert(o + (seq![line@] + lines_of(s@.skip(i as int))) =~= o.push(line@) + lines_of(
                s@.skip(i as int),
            ));
        }
    }
    assert(s@.skip(i as int) =~= Seq::<char>::empty());
    assert(out.deep_view() + Seq::<Seq<char>>::empty() =~= out.deep_view());
    out
}

/// The words of a text (as `str::split_whitespace` gives them).
pub fn words(s: &str) -> (r: Vec<String>)
    ensures
        r.deep_view() == words_of(s@),
{
    let v = chars_of(s);
    let mut out: Vec<String> = Vec::new();
    let mut i: usize = 0;
    assert(v@.skip(0) =~= v@);
    assert(out.deep_view() + words_of(s@) =~= words_of(s@));
    while i < v.len()
        invariant
            v@ == s@,
            i <= v@.len(),
            words_of(s@) == out.deep_view() + words_of(s@.skip(i as int)),
        decreases v.len() - i,
    {
        let ghost u = s@.skip(i as int);
        let ghost o = out.deep_view();
        let m: usize = run_from(&v, i, Class::Space);
        proof {
            run_len_is(u, Class::Space, m as nat);
            assert(u.skip(m as int) =~= s@.skip(i + m));
        }
        if i + m == v.len() {
            proof {
                assert(u.skip(m as int).len() == 0);
                assert(words_of(u) =~= Seq::<Seq<char>>::empty());
                assert(s@.skip(v@.len() as int).skip(0) =~= Seq::<char>::empty());
                assert(run_len(s@.skip(v@.len() as int), Class::Space) == 0);
            }
            i = v.len();
        } else {
            let n: usize = run_from(&v, i + m, Class::Ink);
            let ghost t = s@.skip(i + m);
            proof {
                run_len_is(t, Class::Ink, n as nat);
                assert(t[0] == u[m as int]);
                assert(n > 0);
            }
            let word = text_between(&v, i + m, i + m + n);
            proof {
                assert(word@ =~= t.take(n as int));
                assert(t.skip(n as int) =~= s@.skip(i + m + n));
            }
            out.push(word);
            i = i + m + n;
            assert(out.deep_view() =~= o.push(word@));
            assert(o + (seq![word@] + words_of(s@.skip(i as int))) =~= o.push(word@) + words_of(
                s@.skip(i as int),
            ));
        }
    }
    proof {
        let e = s@.skip(i as int);
        assert(e =~= Seq::<char>::empty());
        assert(run_len(e, Class::Space) == 0);
        assert(e.skip(0) =~= e);
        assert(words_of(e) =~= Seq::<Seq<char>>::empty());
        assert(out.deep_view() + Seq::<Seq<char>>::empty() =~= out.deep_view());
    }
    out
}

/// The parts of a text between the occurrences of a character (as `str::split` gives them).
pub fn parts(s: &str, c: char) -> (r: Vec<String>)
    ensures
        r.deep_view() == parts_of(s@, c),
{
    let v = chars_of(s);
    let mut out: Vec<String> = Vec::new();
    let mut i: usize = 0;
    assert(v@.skip(0) =~= v@);
    assert(out.deep_view() + parts_of(s@, c) =~= parts_of(s@, c));
    loop
        invariant
            v@ == s@,
            i <= v@.len(),
            parts_of(s@, c) == out.deep_view() + parts_of(s@.skip(i as int), c),
        decreases v.len() - i,
    {
        let ghost t = s@.skip(i as int);
        let ghost o = out.deep_view();
        let n: usize = run_from(&v, i, Class::Not(c));
        let part = text_between(&v, i, i + n);
        proof {
            run_len_is(t, Class::Not(c), n as nat);
            assert(part@ =~= t.take(n as int));
        }
        if i + n == v.len() {
            assert(part@ =~= t);
            out.push(part);
            assert(out.deep_view() =~= o.push(t));
            assert(o + seq![t] =~= o.push(t));
            return out;
        }
        out.push(part);
        i = i + n + 1;
        proof {
            assert(t.skip(n + 1) =~= s@.skip(i as int));
            assert(out.deep_view() =~= o.push(part@));
            assert(o + (seq![part@] + parts_of(s@.skip(i as int), c)) =~= o.push(part@) + parts_of(
                s@.skip(i as int),
                c,
            ));
        }
    }
}

// ---------------------------------------------------------------- joining

/// The texts of a list with a separator between them.
pub open spec fn joined(list: Seq<Seq<char>>, sep: Seq<char>) -> Seq<char>
    decreases list.len(),
{
    if list.len() == 0 {
        Seq::empty()
    } else if list.len() == 1 {
        list[0]
    } else {
        joined(list.drop_last(), sep) + sep + list.last()
    }
}

/// Joins the texts of a list with a separator between them.
pub fn join(list: &Vec<String>, sep: &str) -> (r: String)
    ensures
        r@ == joined(list.deep_view(), sep@),
{
    let mut out = String::new();
    let mut i: usize = 0;
    let ghost all = list.deep_view();
    while i < list.len()
        invariant
            all == list.deep_view(),
            i <= list@.len(),
            out@ == joined(all.take(i as int), sep@),
        decreases list.len() - i,
    {
        let ghost t = all.take(i + 1);
        assert(t.drop_last() =~= all.take(i as int));
        assert(t.last() == list@[i as int]@);
        if i > 0 {
            out.append(sep);
            out.append(list[i].as_str());
        } else {
            out.append(list[i].as_str());
            assert(out@ =~= list@[0]@);
        }
        i += 1;
    }
    assert(all.take(i as int) =~= all);
    out
}

} // verus!
