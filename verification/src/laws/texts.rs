//! What splitting, trimming, replacing and joining do to texts.

use vstd::prelude::*;
use crate::number::decimal_of;
use crate::scan::{
    contains, drop_trailing, first_at, first_from_is_least, is_space, joined, lines_of, occurs_at,
    parts_of, replaced, run_len, run_len_is, starts, trim_by, trimmed, words_of, Class,
};
use crate::sets::{ascending, sorted};
use crate::text::precedes;

verus! {

/// A text contains another exactly when the other stands somewhere between two pieces.
pub proof fn contained_stands_between(s: Seq<char>, p: Seq<char>)
    ensures
        contains(s, p) <==> exists|a: Seq<char>, b: Seq<char>| s == #[trigger] (a + p + b),
        starts(s, p) <==> exists|b: Seq<char>| s == #[trigger] (p + b),
{
    if contains(s, p) {
        let i = choose|i: int| occurs_at(s, p, i);
        assert(s =~= s.take(i) + p + s.skip(i + p.len()));
    }
    if exists|a: Seq<char>, b: Seq<char>| s == #[trigger] (a + p + b) {
        let (a, b) = choose|a: Seq<char>, b: Seq<char>| s == #[trigger] (a + p + b);
        let i = a.len() as int;
        assert(s.subrange(i, i + p.len()) =~= p);
        assert(occurs_at(s, p, i));
    }
    if starts(s, p) {
        assert(s =~= p + s.skip(p.len() as int));
    }
    if exists|b: Seq<char>| s == #[trigger] (p + b) {
        let b = choose|b: Seq<char>| s == #[trigger] (p + b);
        assert(s.subrange(0, p.len() as int) =~= p);
    }
}

/// What a part of a text contains, the whole contains.
pub proof fn part_of_part(s: Seq<char>, t: Seq<char>, p: Seq<char>)
    requires
        contains(s, t),
        contains(t, p),
    ensures
        contains(s, p),
{
    let i = choose|i: int| occurs_at(s, t, i);
    let j = choose|j: int| occurs_at(t, p, j);
    assert(s.subrange(i + j, i + j + p.len()) =~= t.subrange(j, j + p.len()));
    assert(occurs_at(s, p, i + j));
}

/// A text between two others is contained in the three put together.
pub proof fn between(a: Seq<char>, p: Seq<char>, b: Seq<char>)
    ensures
        contains(a + p + b, p),
{
    assert((a + p + b).subrange(a.len() as int, a.len() as int + p.len()) =~= p);
    assert(occurs_at(a + p + b, p, a.len() as int));
}

// ---------------------------------------------------------------- trimming

proof fn trailing_is_cut(s: Seq<char>, k: Class)
    ensures
        drop_trailing(s, k).len() <= s.len(),
        drop_trailing(s, k) == s.take(drop_trailing(s, k).len() as int),
        forall|i: int| drop_trailing(s, k).len() <= i < s.len() ==> k.has(#[trigger] s[i]),
        drop_trailing(s, k).len() > 0 ==> !k.has(drop_trailing(s, k).last()),
    decreases s.len(),
{
    if s.len() > 0 && k.has(s.last()) {
        let t = s.drop_last();
        trailing_is_cut(t, k);
        let n = drop_trailing(s, k).len() as int;
        assert(t.take(n) =~= s.take(n));
        assert forall|i: int| n <= i < s.len() implies k.has(#[trigger] s[i]) by {
            if i < t.len() {
                assert(t[i] == s[i]);
            }
        }
    } else {
        assert(s.take(s.len() as int) =~= s);
    }
}

/// Trimming takes off characters of a kind at both ends, all of them, and nothing else.
pub proof fn trimming_takes_off_the_ends(s: Seq<char>, k: Class) -> (cut: (Seq<char>, Seq<char>))
    ensures
        s == cut.0 + trim_by(s, k) + cut.1,
        forall|i: int| 0 <= i < cut.0.len() ==> k.has(#[trigger] cut.0[i]),
        forall|i: int| 0 <= i < cut.1.len() ==> k.has(#[trigger] cut.1[i]),
        trim_by(s, k).len() > 0 ==> !k.has(trim_by(s, k)[0]) && !k.has(trim_by(s, k).last()),
{
    let n = run_len(s, k);
    run_len_is(s, k, n);
    let t = s.skip(n as int);
    trailing_is_cut(t, k);
    let m = drop_trailing(t, k).len() as int;
    let cut = (s.take(n as int), t.skip(m));
    assert(s =~= cut.0 + t.take(m) + cut.1);
    assert forall|i: int| 0 <= i < cut.1.len() implies k.has(#[trigger] cut.1[i]) by {
        assert(cut.1[i] == t[m + i]);
    }
    if m > 0 {
        assert(trim_by(s, k)[0] == s[n as int]);
    }
    cut
}

/// White space around a text that has none at its ends is what trimming takes off.
pub proof fn trimming_undoes_padding(left: Seq<char>, s: Seq<char>, right: Seq<char>)
    requires
        forall|i: int| 0 <= i < left.len() ==> is_space(#[trigger] left[i]),
        forall|i: int| 0 <= i < right.len() ==> is_space(#[trigger] right[i]),
        s.len() > 0 ==> !is_space(s[0]) && !is_space(s.last()),
    ensures
        trimmed(left + s + right) == s,
{
    let all = left + s + right;
    let k = Class::Space;
    let cut = trimming_takes_off_the_ends(all, k);
    let t = trimmed(all);
    if s.len() == 0 {
        if t.len() > 0 {
            let i = cut.0.len() as int;
            assert(all[i] == t[0]);
            assert(k.has(all[i])) by {
                if i < left.len() {
                    assert(all[i] == left[i]);
                } else {
                    assert(all[i] == right[i - left.len()]);
                }
            }
        }
        assert(t =~= s);
    } else {
        let a = left.len() as int;
        let b = a + s.len();
        assert(all[a] == s[0]);
        assert(all[b - 1] == s.last());
        let x = cut.0.len() as int;
        let y = x + t.len();
        // neither end can be cut deeper or less deep
        if x > a {
            assert(cut.0[a] == all[a]);
        }
        if y < b {
            assert(cut.1[b - 1 - y] == all[b - 1]);
        }
        if t.len() > 0 {
            assert(t[0] == all[x]);
            assert(t.last() == all[y - 1]);
            if x < a {
                assert(all[x] == left[x]);
            }
            if y > b {
                assert(all[y - 1] == right[y - 1 - b]);
            }
        }
        assert(x == a && y == b);
        assert(t =~= all.subrange(a, b));
        assert(s =~= all.subrange(a, b));
    }
}

// ---------------------------------------------------------------- splitting

/// Lines end at line feeds: a text without one is a line, unless it is empty, and what
/// stands behind the first line feed is split by itself. A carriage return right before a
/// line feed is not part of the line.
pub proof fn lines_end_at_line_feeds(a: Seq<char>, b: Seq<char>)
    requires
        !a.contains('\n'),
    ensures
        lines_of(a) == if a.len() > 0 {
            seq![a]
        } else {
            Seq::empty()
        },
        lines_of(a + "\n"@ + b) == seq![a] + lines_of(b) || a.len() > 0 && a.last() == '\r',
        lines_of(a + "\r\n"@ + b) == seq![a] + lines_of(b),
{
    reveal_strlit("\n");
    reveal_strlit("\r\n");
    let k = Class::Not('\n');
    assert forall|i: int| 0 <= i < a.len() implies k.has(#[trigger] a[i]) by {
        assert(a.contains(a[i]));
    }
    run_len_is(a, k, a.len());
    let n = a.len() as int;
    let s = a + "\n"@ + b;
    assert forall|i: int| 0 <= i < n implies k.has(#[trigger] s[i]) by {
        assert(s[i] == a[i]);
    }
    assert(s[n] == '\n');
    run_len_is(s, k, a.len());
    assert(s.take(n) =~= a);
    assert(s.skip(n + 1) =~= b);
    let t = a + "\r\n"@ + b;
    assert forall|i: int| 0 <= i < n + 1 implies k.has(#[trigger] t[i]) by {
        if i < n {
            assert(t[i] == a[i]);
        } else {
            assert(t[i] == '\r');
        }
    }
    assert(t[n + 1] == '\n');
    run_len_is(t, k, (n + 1) as nat);
    assert(t.take(n + 1) =~= a.push('\r'));
    assert(a.push('\r').drop_last() =~= a);
    assert(t.skip(n + 2) =~= b);
}

/// Words stand between white space: a run of other characters is a word, white space in
/// front belongs to none, and what follows a word and a blank is split by itself.
pub proof fn words_stand_between_space(w: Seq<char>, c: char, rest: Seq<char>)
    requires
        w.len() > 0,
        forall|i: int| 0 <= i < w.len() ==> !is_space(#[trigger] w[i]),
        is_space(c),
    ensures
        words_of(w) == seq![w],
        words_of(w.push(c) + rest) == seq![w] + words_of(rest),
        words_of(seq![c] + rest) == words_of(rest),
        words_of(Seq::empty()) == Seq::<Seq<char>>::empty(),
{
    let sp = Class::Space;
    let ink = Class::Ink;
    let none = Seq::<char>::empty();
    run_len_is(none, sp, 0);
    assert(none.skip(0) =~= none);
    assert(words_of(none) =~= Seq::<Seq<char>>::empty());
    run_len_is(w, sp, 0);
    assert(w.skip(0) =~= w);
    run_len_is(w, ink, w.len());
    assert(w.take(w.len() as int) =~= w);
    assert(w.skip(w.len() as int) =~= none);
    assert(words_of(w) =~= seq![w]);
    // white space in front
    let s = seq![c] + rest;
    let n = run_len(rest, sp);
    run_len_is(rest, sp, n);
    assert forall|i: int| 0 <= i < n + 1 implies sp.has(#[trigger] s[i]) by {
        if i > 0 {
            assert(s[i] == rest[i - 1]);
        }
    }
    run_len_is(s, sp, n + 1);
    assert(s.skip(n as int + 1) =~= rest.skip(n as int));
    assert(words_of(s) =~= words_of(rest));
    // a word in front
    let t = w.push(c) + rest;
    assert(t[0] == w[0]);
    run_len_is(t, sp, 0);
    assert(t.skip(0) =~= t);
    assert forall|i: int| 0 <= i < w.len() implies ink.has(#[trigger] t[i]) by {
        assert(t[i] == w[i]);
    }
    assert(t[w.len() as int] == c);
    run_len_is(t, ink, w.len());
    assert(t.take(w.len() as int) =~= w);
    assert(t.skip(w.len() as int) =~= s);
}

/// Parts stand between the occurrences of a character: joined by it they are the text.
pub proof fn parts_join_to_the_text(s: Seq<char>, c: char)
    ensures
        joined(parts_of(s, c), seq![c]) == s,
        parts_of(s, c).len() > 0,
        forall|i: int| 0 <= i < parts_of(s, c).len() ==> !(#[trigger] parts_of(s, c)[i]).contains(c),
    decreases s.len(),
{
    let n = run_len(s, Class::Not(c)) as int;
    run_len_is(s, Class::Not(c), n as nat);
    let ps = parts_of(s, c);
    if n < s.len() {
        let rest = s.skip(n + 1);
        parts_join_to_the_text(rest, c);
        let more = parts_of(rest, c);
        assert(ps == seq![s.take(n)] + more);
        joined_in_two(seq![s.take(n)], more, seq![c]);
        assert(s =~= s.take(n) + seq![c] + rest);
        assert forall|i: int| 0 <= i < ps.len() implies !(#[trigger] ps[i]).contains(c) by {
            if i == 0 {
                if ps[0].contains(c) {
                    let j = choose|j: int| 0 <= j < ps[0].len() && ps[0][j] == c;
                    assert(Class::Not(c).has(s[j]));
                }
            } else {
                assert(ps[i] == more[i - 1]);
            }
        }
    } else {
        if s.contains(c) {
            let j = choose|j: int| 0 <= j < s.len() && s[j] == c;
            assert(Class::Not(c).has(s[j]));
        }
    }
}

// ---------------------------------------------------------------- joining

/// A list joined is its two halves joined, with the separator between them; a list of one
/// text is that text, and an empty list is the empty text.
pub proof fn joined_in_two(a: Seq<Seq<char>>, b: Seq<Seq<char>>, sep: Seq<char>)
    requires
        a.len() > 0,
        b.len() > 0,
    ensures
        joined(a + b, sep) == joined(a, sep) + sep + joined(b, sep),
        joined(seq![a[0]], sep) == a[0],
        joined(Seq::empty(), sep) == Seq::<char>::empty(),
    decreases b.len(),
{
    let all = a + b;
    if b.len() == 1 {
        assert(all.drop_last() =~= a);
        assert(all.last() == b[0]);
    } else {
        let t = b.drop_last();
        joined_in_two(a, t, sep);
        assert(all.drop_last() =~= a + t);
        assert(all.last() == b.last());
        assert(joined(a, sep) + sep + (joined(t, sep) + sep + b.last()) =~= joined(a, sep) + sep
            + joined(t, sep) + sep + b.last());
    }
}

/// Each text of a list is contained in the list joined.
pub proof fn joined_holds_each(list: Seq<Seq<char>>, sep: Seq<char>, i: int)
    requires
        0 <= i < list.len(),
    ensures
        contains(joined(list, sep), list[i]),
    decreases list.len(),
{
    let none = Seq::<char>::empty();
    if list.len() == 1 {
        between(none, list[0], none);
        assert(none + list[0] + none =~= list[0]);
    } else {
        let front = list.drop_last();
        let head = joined(front, sep);
        if i < front.len() {
            joined_holds_each(front, sep, i);
            between(none, head, sep + list.last());
            assert(none + head + (sep + list.last()) =~= head + sep + list.last());
            part_of_part(joined(list, sep), head, list[i]);
        } else {
            between(head + sep, list.last(), none);
            assert(head + sep + list.last() + none =~= head + sep + list.last());
        }
    }
}

/// The text does not hold the separator, not even together with a separator behind it.
pub open spec fn free_of(x: Seq<char>, sep: Seq<char>) -> bool {
    forall|k: int| #[trigger] occurs_at(x + sep, sep, k) ==> k == x.len()
}

/// A text without the first character of the separator is free of it.
pub proof fn free_without_first(x: Seq<char>, sep: Seq<char>)
    requires
        sep.len() > 0,
        !x.contains(sep[0]),
    ensures
        free_of(x, sep),
{
    assert forall|k: int| #[trigger] occurs_at(x + sep, sep, k) implies k == x.len() by {
        if k < x.len() {
            assert((x + sep).subrange(k, k + sep.len())[0] == x[k]);
        }
    }
}

/// No text of a list that is joined is lost, none is added, and their order is kept: when
/// the separator stands in none of them, the list can be read back.
pub proof fn joined_reads_back(x: Seq<Seq<char>>, y: Seq<Seq<char>>, sep: Seq<char>)
    requires
        sep.len() > 0,
        x.len() > 0 && y.len() > 0,
        forall|i: int| 0 <= i < x.len() ==> free_of(#[trigger] x[i], sep),
        forall|i: int| 0 <= i < y.len() ==> free_of(#[trigger] y[i], sep),
        joined(x, sep) == joined(y, sep),
    ensures
        x == y,
    decreases x.len(),
{
    first_piece(x, sep);
    first_piece(y, sep);
    let s = joined(x, sep);
    let a = x[0];
    let b = y[0];
    piece_ends_at_first(x, y, sep);
    if x.len() == 1 {
        assert(x =~= seq![a]);
        assert(y =~= seq![b]);
    } else {
        let u = x.drop_first();
        let v = y.drop_first();
        assert(s.skip(a.len() as int + sep.len()) =~= joined(u, sep));
        assert(s.skip(b.len() as int + sep.len()) =~= joined(v, sep));
        assert forall|i: int| 0 <= i < u.len() implies free_of(#[trigger] u[i], sep) by {
            assert(u[i] == x[i + 1]);
        }
        assert forall|i: int| 0 <= i < v.len() implies free_of(#[trigger] v[i], sep) by {
            assert(v[i] == y[i + 1]);
        }
        joined_reads_back(u, v, sep);
        assert(x =~= seq![a] + u);
        assert(y =~= seq![b] + v);
    }
}

/// What a list that is joined starts with: its first text and, if there is another, the
/// separator.
proof fn first_piece(x: Seq<Seq<char>>, sep: Seq<char>)
    requires
        x.len() > 0,
    ensures
        x.len() == 1 ==> joined(x, sep) == x[0],
        x.len() > 1 ==> joined(x, sep) == x[0] + sep + joined(x.drop_first(), sep),
{
    if x.len() > 1 {
        joined_in_two(seq![x[0]], x.drop_first(), sep);
        assert(seq![x[0]] + x.drop_first() =~= x);
    }
}

/// Two lists that are joined to the same text start with the same text, and go on or end
/// alike.
proof fn piece_ends_at_first(x: Seq<Seq<char>>, y: Seq<Seq<char>>, sep: Seq<char>)
    requires
        sep.len() > 0,
        x.len() > 0 && y.len() > 0,
        forall|i: int| 0 <= i < x.len() ==> free_of(#[trigger] x[i], sep),
        forall|i: int| 0 <= i < y.len() ==> free_of(#[trigger] y[i], sep),
        joined(x, sep) == joined(y, sep),
    ensures
        x[0] == y[0],
        x.len() == 1 <==> y.len() == 1,
{
    first_piece(x, sep);
    first_piece(y, sep);
    let s = joined(x, sep);
    let a = x[0];
    let b = y[0];
    let n = sep.len() as int;
    // a separator behind `a` would stand in `b`, or in `b` and its own separator
    if x.len() > 1 {
        let k = a.len() as int;
        assert(s.subrange(k, k + n) =~= sep);
        if k < b.len() || y.len() == 1 {
            let t = b + sep;
            if k + n <= t.len() && (y.len() > 1 || k + n <= b.len()) {
                assert(t.subrange(k, k + n) =~= s.subrange(k, k + n));
                assert(occurs_at(y[0] + sep, sep, k));
                assert(free_of(y[0], sep));
            }
        }
    }
    if y.len() > 1 {
        let k = b.len() as int;
        assert(s.subrange(k, k + n) =~= sep);
        if k < a.len() || x.len() == 1 {
            let t = a + sep;
            if k + n <= t.len() && (x.len() > 1 || k + n <= a.len()) {
                assert(t.subrange(k, k + n) =~= s.subrange(k, k + n));
                assert(occurs_at(x[0] + sep, sep, k));
                assert(free_of(x[0], sep));
            }
        }
    }
    assert(a.len() == b.len());
    assert(a =~= s.take(a.len() as int));
    assert(b =~= s.take(b.len() as int));
}

// ---------------------------------------------------------------- replacing

/// Replacing starts at the left: up to the first occurrence the text stays, the occurrence
/// is exchanged, and what follows is treated by itself. A text without an occurrence stays
/// as it is.
pub proof fn replacing_starts_at_the_left(s: Seq<char>, p: Seq<char>, q: Seq<char>)
    requires
        p.len() > 0,
    ensures
        match first_at(s, p) {
            None => replaced(s, p, q) == s,
            Some(i) => replaced(s, p, q) == s.take(i) + q + replaced(s.skip(i + p.len()), p, q),
        },
    decreases s.len(),
{
    first_from_is_least(s, p, 0);
    if s.len() > 0 && !starts(s, p) {
        let t = s.drop_first();
        replacing_starts_at_the_left(t, p, q);
        first_from_is_least(t, p, 0);
        assert forall|m: int| 0 <= m implies #[trigger] occurs_at(t, p, m) == occurs_at(s, p, m + 1) by {
            if m + p.len() <= t.len() {
                assert(t.subrange(m, m + p.len()) =~= s.subrange(m + 1, m + 1 + p.len()));
            }
        }
        match first_at(s, p) {
            Some(i) => {
                assert(i > 0);
                assert(occurs_at(t, p, i - 1));
                let j = first_at(t, p)->0;
                assert(occurs_at(s, p, j + 1));
                assert(j == i - 1);
                assert(seq![s[0]] + (t.take(j) + q + replaced(t.skip(j + p.len()), p, q)) =~= s.take(i) + q
                    + replaced(t.skip(j + p.len()), p, q));
                assert(t.skip(j + p.len()) =~= s.skip(i + p.len()));
            },
            None => {
                if let Some(j) = first_at(t, p) {
                    assert(occurs_at(s, p, j + 1));
                }
                assert(seq![s[0]] + t =~= s);
            },
        }
    } else if s.len() > 0 {
        assert(first_at(s, p) == Some(0int));
        assert(s.take(0) + q =~= q);
    }
}

// ---------------------------------------------------------------- numbers

/// The number that digits stand for.
pub open spec fn read_back(s: Seq<char>) -> nat
    decreases s.len(),
{
    if s.len() == 0 {
        0
    } else {
        10 * read_back(s.drop_last()) + (s.last() as nat - '0' as nat) as nat
    }
}

/// A number that is written out reads back as the number, in digits, and without a zero in
/// front.
pub proof fn written_number_reads_back(n: nat)
    ensures
        read_back(decimal_of(n)) == n,
        forall|i: int| 0 <= i < decimal_of(n).len() ==> '0' <= #[trigger] decimal_of(n)[i] <= '9',
        decimal_of(n).len() > 0,
        n > 0 ==> decimal_of(n)[0] != '0',
    decreases n,
{
    let s = decimal_of(n);
    if n < 10 {
        assert(s.drop_last() =~= Seq::<char>::empty());
        assert(read_back(s.drop_last()) == 0);
    } else {
        written_number_reads_back(n / 10);
        assert(s.drop_last() =~= decimal_of(n / 10));
    }
}

// ---------------------------------------------------------------- order

/// Of two texts, the one comes first that has the smaller character where they first differ,
/// or that ends there.
pub proof fn first_difference_decides(p: Seq<char>, a: Seq<char>, b: Seq<char>)
    requires
        a.len() > 0 && b.len() > 0 ==> a[0] != b[0],
    ensures
        precedes(p + a, p + b) <==> b.len() > 0 && (a.len() == 0 || a[0] < b[0]),
    decreases p.len(),
{
    if p.len() == 0 {
        assert(p + a =~= a);
        assert(p + b =~= b);
    } else {
        let t = p.drop_first();
        first_difference_decides(t, a, b);
        assert((p + a).drop_first() =~= t + a);
        assert((p + b).drop_first() =~= t + b);
        assert((p + a)[0] == p[0] && (p + b)[0] == p[0]);
    }
}

/// A list in ascending order has each text before the next; one that may repeat a text has
/// none after the next.
pub proof fn order_of_two(a: Seq<char>, b: Seq<char>)
    ensures
        sorted(seq![a, b]) <==> precedes(a, b),
        ascending(seq![a, b]) <==> !precedes(b, a),
{
    let s = seq![a, b];
    assert(s[0] == a && s[1] == b);
    if sorted(s) {
        assert(precedes(s[0], s[1]));
    }
    if ascending(s) {
        assert(!precedes(s[1], s[0]));
    }
}

/// White space is what Unicode calls so.
pub proof fn white_space_of_unicode(c: char)
    ensures
        is_space(c) <==> {
            ||| c == ' ' || c == '\t' || c == '\n' || c == '\u{b}' || c == '\u{c}' || c == '\r'
            ||| c == '\u{85}' || c == '\u{a0}' || c == '\u{1680}'
            ||| '\u{2000}' <= c && c <= '\u{200a}'
            ||| c == '\u{2028}' || c == '\u{2029}' || c == '\u{202f}' || c == '\u{205f}' || c == '\u{3000}'
        },
{
}

} // verus!
