//! What is harvested from the files that a crate ships.

use vstd::prelude::*;
use vstd::utf8::{decode_utf8, valid_utf8};
use crate::harvest::{
    adds_statements, author_name, extras_of, first_word, holder_of, is_license_name, is_notice_name,
    is_prose, is_statement, is_template, lf, names_holder, normalized, notice_of, notice_texts,
    scanned, stated, states, utf8_lossy, AttributionView, LICENSE_STEMS, NOT_A_HOLDER, PLACEHOLDERS,
    SourceFileView,
};
use crate::laws::texts::{between, joined_in_two, part_of_part, replacing_starts_at_the_left};
use crate::scan::{
    contains, first_at, first_from_is_least, joined, lines_of, occurs_at, replaced, run_len,
    run_len_is, starts, trim_by, trimmed, words_of, Class,
};
use crate::sets::{in_order_lists, sorted};
use crate::text::{alphanumeric, lowercase};

verus! {

// ---------------------------------------------------------------- copyright lines

/// The line, in lower case, holds a mark of a template with a blank to fill in.
pub open spec fn has_blank(line: Seq<char>) -> bool {
    ||| contains(lowercase(line), "yyyy"@)
    ||| contains(lowercase(line), "name of copyright owner"@)
    ||| contains(lowercase(line), "<year>"@)
    ||| contains(lowercase(line), "<owner>"@)
    ||| contains(lowercase(line), "<copyright holder"@)
    ||| contains(lowercase(line), "<name of author>"@)
    ||| contains(lowercase(line), "{year}"@)
    ||| contains(lowercase(line), "{owner}"@)
}

/// The word, in lower case, belongs to headings and license prose.
pub open spec fn is_heading(word: Seq<char>) -> bool {
    ||| lowercase(word) == "and"@
    ||| lowercase(word) == "notice"@
    ||| lowercase(word) == "notices"@
    ||| lowercase(word) == "license"@
    ||| lowercase(word) == "licenses"@
    ||| lowercase(word) == "law"@
    ||| lowercase(word) == "laws"@
}

/// What starts a copyright statement.
pub open spec fn is_marker(m: Seq<char>) -> bool {
    m == "Copyright"@ || m == "COPYRIGHT"@ || m == "©"@
}

/// What stands behind the marker, with blanks in place of its `(c)` signs.
pub open spec fn behind_signs(body: Seq<char>) -> Seq<char> {
    replaced(replaced(body, "(c)"@, " "@), "(C)"@, " "@)
}

proof fn template_has_blank(line: Seq<char>)
    ensures
        is_template(line) <==> has_blank(line),
{
    assert(PLACEHOLDERS@[0]@ == "yyyy"@);
    assert(PLACEHOLDERS@[1]@ == "name of copyright owner"@);
    assert(PLACEHOLDERS@[2]@ == "<year>"@);
    assert(PLACEHOLDERS@[3]@ == "<owner>"@);
    assert(PLACEHOLDERS@[4]@ == "<copyright holder"@);
    assert(PLACEHOLDERS@[5]@ == "<name of author>"@);
    assert(PLACEHOLDERS@[6]@ == "{year}"@);
    assert(PLACEHOLDERS@[7]@ == "{owner}"@);
    if is_template(line) {
        let i = choose|i: int| 0 <= i < 8 && contains(lowercase(line), #[trigger] PLACEHOLDERS@[i]@);
        assert(i == 0 || i == 1 || i == 2 || i == 3 || i == 4 || i == 5 || i == 6 || i == 7);
    }
}

proof fn prose_is_heading(word: Seq<char>)
    ensures
        is_prose(word) <==> is_heading(word),
{
    assert(NOT_A_HOLDER@[0]@ == "and"@);
    assert(NOT_A_HOLDER@[1]@ == "notice"@);
    assert(NOT_A_HOLDER@[2]@ == "notices"@);
    assert(NOT_A_HOLDER@[3]@ == "license"@);
    assert(NOT_A_HOLDER@[4]@ == "licenses"@);
    assert(NOT_A_HOLDER@[5]@ == "law"@);
    assert(NOT_A_HOLDER@[6]@ == "laws"@);
    if is_prose(word) {
        let i = choose|i: int| 0 <= i < 7 && lowercase(word) == #[trigger] NOT_A_HOLDER@[i]@;
        assert(i == 0 || i == 1 || i == 2 || i == 3 || i == 4 || i == 5 || i == 6);
    }
}

proof fn marker_is_cut(marker: Seq<char>, body: Seq<char>)
    requires
        is_marker(marker),
    ensures
        stated(marker + body) == Some(body),
{
    reveal_strlit("Copyright");
    reveal_strlit("COPYRIGHT");
    reveal_strlit("©");
    let s = marker + body;
    let n = marker.len() as int;
    assert(s.subrange(0, n) =~= marker);
    assert(starts(s, marker));
    assert(s.skip(n) =~= body);
    assert(s[0] == marker[0]);
    if starts(s, "Copyright"@) {
        assert(s.subrange(0, 9)[1] == s[1]);
    }
    if starts(s, "COPYRIGHT"@) {
        assert(s.subrange(0, 9)[0] == s[0]);
        assert(s.subrange(0, 9)[1] == s[1]);
    }
    if marker != "©"@ {
        assert(s[1] == marker[1]);
    } else if starts(s, "Copyright"@) {
        assert(s.subrange(0, 9)[0] == s[0]);
    }
}

/// A line that starts with a marker, holds no blank to fill in, and names somebody right
/// behind the marker, counts as a statement, whatever follows the first word: that word,
/// marks around it aside, need only hold a letter or a number and be none of those in
/// headings.
pub proof fn named_holder_makes_a_statement(marker: Seq<char>, body: Seq<char>, k: int)
    requires
        is_marker(marker),
        !has_blank(marker + body),
        words_of(behind_signs(body)).len() > 0,
        0 <= k < words_of(behind_signs(body))[0].len(),
        alphanumeric(words_of(behind_signs(body))[0][k]),
        !is_heading(trim_by(words_of(behind_signs(body))[0], Class::Mark)),
    ensures
        names_holder(marker + body),
{
    let t = marker + body;
    marker_is_cut(marker, body);
    template_has_blank(t);
    let h = behind_signs(body);
    prose_is_heading(first_word(h));
    let w = words_of(h)[0];
    assert(first_word(h) == trim_by(w, Class::Mark));
    let j = word_stands_in(h);
    assert(h.subrange(j, j + w.len())[k] == h[j + k]);
    named_behind_the_marker(t, body, j + k);
}

/// The letter or number may also stand further on, as long as the line does not go on like a
/// heading.
pub proof fn name_further_on_makes_a_statement(marker: Seq<char>, body: Seq<char>, m: int)
    requires
        is_marker(marker),
        !has_blank(marker + body),
        0 <= m < behind_signs(body).len(),
        alphanumeric(behind_signs(body)[m]),
        words_of(behind_signs(body)).len() > 0,
        !is_heading(trim_by(words_of(behind_signs(body))[0], Class::Mark)),
    ensures
        names_holder(marker + body),
{
    let t = marker + body;
    marker_is_cut(marker, body);
    template_has_blank(t);
    let h = behind_signs(body);
    prose_is_heading(first_word(h));
    assert(first_word(h) == trim_by(words_of(h)[0], Class::Mark));
    named_behind_the_marker(t, body, m);
}

/// Such a line of a text, white space aside, is harvested from it.
pub proof fn named_holder_is_harvested(text: Seq<char>, i: int, marker: Seq<char>, body: Seq<char>, k: int)
    requires
        0 <= i < lines_of(text).len(),
        joined(words_of(lines_of(text)[i]), " "@) == marker + body,
        is_marker(marker),
        !has_blank(marker + body),
        words_of(behind_signs(body)).len() > 0,
        0 <= k < words_of(behind_signs(body))[0].len(),
        alphanumeric(words_of(behind_signs(body))[0][k]),
        !is_heading(trim_by(words_of(behind_signs(body))[0], Class::Mark)),
    ensures
        is_statement(text, marker + body),
{
    named_holder_makes_a_statement(marker, body, k);
    assert(marker + body == normalized(lines_of(text)[i]));
}

proof fn named_behind_the_marker(line: Seq<char>, rest: Seq<char>, m: int)
    requires
        stated(line) == Some(rest),
        !is_template(line),
        0 <= m < behind_signs(rest).len(),
        alphanumeric(behind_signs(rest)[m]),
        !is_prose(first_word(behind_signs(rest))),
    ensures
        names_holder(line),
{
    assert(holder_of(rest) == behind_signs(rest));
    assert(alphanumeric(holder_of(rest)[m]));
}

/// Where the first word stands.
proof fn word_stands_in(s: Seq<char>) -> (j: int)
    requires
        words_of(s).len() > 0,
    ensures
        occurs_at(s, words_of(s)[0], j),
{
    let m = run_len(s, Class::Space);
    run_len_is(s, Class::Space, m);
    let t = s.skip(m as int);
    let n = run_len(t, Class::Ink);
    run_len_is(t, Class::Ink, n);
    assert(words_of(s)[0] == t.take(n as int));
    assert(s.subrange(m as int, m as int + n as int) =~= t.take(n as int));
    m as int
}

/// What is harvested is a line of the text, white space aside, that starts with a marker,
/// holds no blank to fill in and some letter or number behind the marker, and does not go
/// on like a heading.
pub proof fn harvested_line_names_a_holder(text: Seq<char>, t: Seq<char>) -> (split: (Seq<char>, Seq<char>))
    requires
        is_statement(text, t),
    ensures
        exists|i: int| 0 <= i < lines_of(text).len() && t == joined(words_of(#[trigger] lines_of(text)[i]), " "@),
        t == split.0 + split.1,
        is_marker(split.0),
        !has_blank(t),
        exists|k: int| 0 <= k < behind_signs(split.1).len() && alphanumeric(#[trigger] behind_signs(split.1)[k]),
        words_of(behind_signs(split.1)).len() > 0 ==> !is_heading(
            trim_by(words_of(behind_signs(split.1))[0], Class::Mark),
        ),
{
    let i = choose|i: int| 0 <= i < lines_of(text).len() && t == normalized(#[trigger] lines_of(text)[i]);
    assert(t == joined(words_of(lines_of(text)[i]), " "@));
    template_has_blank(t);
    let rest = stated(t)->0;
    prose_is_heading(first_word(holder_of(rest)));
    let n = t.len() - rest.len();
    let m = t.take(n);
    if starts(t, "Copyright"@) {
        assert(m =~= t.subrange(0, "Copyright"@.len() as int));
    } else if starts(t, "COPYRIGHT"@) {
        assert(m =~= t.subrange(0, "COPYRIGHT"@.len() as int));
    } else {
        assert(m =~= t.subrange(0, "©"@.len() as int));
    }
    assert(t =~= m + rest);
    let k = choose|k: int| 0 <= k < holder_of(rest).len() && alphanumeric(#[trigger] holder_of(rest)[k]);
    assert(holder_of(rest) == behind_signs(rest));
    assert(0 <= k < behind_signs(rest).len() && alphanumeric(behind_signs(rest)[k]));
    let split = (m, rest);
    assert(split.1 == rest && alphanumeric(behind_signs(split.1)[k]));
    split
}

/// Replacing does not reach across a blank when what is replaced holds none.
proof fn replaced_around_blank(a: Seq<char>, b: Seq<char>, p: Seq<char>, q: Seq<char>)
    requires
        p.len() > 0,
        !p.contains(' '),
    ensures
        replaced(a + " "@ + b, p, q) == replaced(a, p, q) + " "@ + replaced(b, p, q),
    decreases a.len(),
{
    reveal_strlit(" ");
    let s = a + " "@ + b;
    let n = p.len() as int;
    if starts(s, p) {
        if n > a.len() {
            assert(s.subrange(0, n)[a.len() as int] == ' ');
            assert(p[a.len() as int] == ' ');
        }
        assert(a.subrange(0, n) =~= s.subrange(0, n));
        assert(s.skip(n) =~= a.skip(n) + " "@ + b);
        replaced_around_blank(a.skip(n), b, p, q);
        assert(q + (replaced(a.skip(n), p, q) + " "@ + replaced(b, p, q)) =~= q + replaced(a.skip(n), p, q) + " "@
            + replaced(b, p, q));
    } else if a.len() > 0 {
        if starts(a, p) {
            assert(s.subrange(0, n) =~= a.subrange(0, n));
        }
        assert(s.drop_first() =~= a.drop_first() + " "@ + b);
        replaced_around_blank(a.drop_first(), b, p, q);
        assert(s[0] == a[0]);
        assert(seq![a[0]] + (replaced(a.drop_first(), p, q) + " "@ + replaced(b, p, q)) =~= seq![a[0]] + replaced(
            a.drop_first(),
            p,
            q,
        ) + " "@ + replaced(b, p, q));
    } else {
        assert(s.drop_first() =~= b);
        assert(seq![' '] + replaced(b, p, q) =~= replaced(a, p, q) + " "@ + replaced(b, p, q));
    }
}

/// The first word of a text stays the first when more is put behind it and a blank.
proof fn first_word_stays(a: Seq<char>, b: Seq<char>)
    requires
        words_of(a).len() > 0,
    ensures
        words_of(a + " "@ + b).len() > 0,
        words_of(a + " "@ + b)[0] == words_of(a)[0],
{
    reveal_strlit(" ");
    let s = a + " "@ + b;
    let m = run_len(a, Class::Space);
    run_len_is(a, Class::Space, m);
    let t = a.skip(m as int);
    let n = run_len(t, Class::Ink);
    run_len_is(t, Class::Ink, n);
    assert(m < a.len());
    assert forall|i: int| 0 <= i < m implies Class::Space.has(#[trigger] s[i]) by {
        assert(s[i] == a[i]);
    }
    assert(s[m as int] == a[m as int]);
    run_len_is(s, Class::Space, m);
    let u = s.skip(m as int);
    assert forall|i: int| 0 <= i < n implies Class::Ink.has(#[trigger] u[i]) by {
        assert(u[i] == t[i]);
    }
    if n < t.len() {
        assert(u[n as int] == t[n as int]);
    } else {
        assert(u[n as int] == ' ');
    }
    run_len_is(u, Class::Ink, n);
    assert(u.take(n as int) =~= t.take(n as int));
}

/// Words that are put behind a statement which names somebody right away keep it one, as
/// long as they bring in no blank to fill in.
pub proof fn appended_words_keep_a_statement(text: Seq<char>, other: Seq<char>, t: Seq<char>, more: Seq<char>, i: int, k: int)
    requires
        is_statement(text, t),
        0 <= i < lines_of(other).len(),
        joined(words_of(lines_of(other)[i]), " "@) == t + " "@ + more,
        !has_blank(t + " "@ + more),
        stated(t) is Some,
        words_of(behind_signs(stated(t)->0)).len() > 0,
        0 <= k < words_of(behind_signs(stated(t)->0))[0].len(),
        alphanumeric(words_of(behind_signs(stated(t)->0))[0][k]),
    ensures
        is_statement(other, t + " "@ + more),
{
    let split = harvested_line_names_a_holder(text, t);
    let marker = split.0;
    let body = split.1;
    marker_is_cut(marker, body);
    reveal_strlit("(c)");
    reveal_strlit("(C)");
    reveal_strlit(" ");
    assert(!"(c)"@.contains(' '));
    assert(!"(C)"@.contains(' '));
    replaced_around_blank(body, more, "(c)"@, " "@);
    replaced_around_blank(replaced(body, "(c)"@, " "@), replaced(more, "(c)"@, " "@), "(C)"@, " "@);
    let longer = body + " "@ + more;
    assert(behind_signs(longer) == behind_signs(body) + " "@ + behind_signs(more));
    first_word_stays(behind_signs(body), behind_signs(more));
    assert(marker + longer =~= t + " "@ + more);
    named_holder_is_harvested(other, i, marker, longer, k);
}

/// A line is one statement whatever its white space: two lines with the same words count as
/// the same.
pub proof fn white_space_does_not_count(a: Seq<char>, b: Seq<char>, i: int, j: int, t: Seq<char>)
    requires
        0 <= i < lines_of(a).len(),
        0 <= j < lines_of(b).len(),
        words_of(lines_of(a)[i]) == words_of(lines_of(b)[j]),
        is_statement(a, t),
        t == joined(words_of(lines_of(a)[i]), " "@),
    ensures
        is_statement(b, t),
{
    assert(t == normalized(lines_of(b)[j]));
}

// ---------------------------------------------------------------- authors

/// The address behind a name is cut off, with the white space between; an entry that is
/// only an address, or that has none, is kept as it is, white space around it aside.
pub proof fn address_is_cut_off(name: Seq<char>, rest: Seq<char>)
    requires
        !name.contains('<'),
    ensures
        trimmed(name).len() > 0 ==> author_name(name + "<"@ + rest) == trimmed(name),
        trimmed(name).len() == 0 ==> author_name(name + "<"@ + rest) == trimmed(name + "<"@ + rest),
        author_name(name) == trimmed(name),
{
    reveal_strlit("<");
    let k = Class::Not('<');
    assert forall|i: int| 0 <= i < name.len() implies k.has(#[trigger] name[i]) by {
        assert(name.contains(name[i]));
    }
    run_len_is(name, k, name.len());
    let s = name + "<"@ + rest;
    assert forall|i: int| 0 <= i < name.len() implies k.has(#[trigger] s[i]) by {
        assert(s[i] == name[i]);
    }
    assert(s[name.len() as int] == '<');
    run_len_is(s, k, name.len());
    assert(s.take(name.len() as int) =~= name);
}

/// The authors of a crate are kept as they are declared.
pub proof fn authors_are_kept(authors: Seq<Seq<char>>, files: Seq<AttributionView>)
    ensures
        extras_of(authors, files).authors == authors,
{
}

// ---------------------------------------------------------------- the files of a crate

/// A NOTICE file is called `notice` or `notices`, with or without an extension, in any case;
/// a license file has a name that starts with `license`, `licence`, `copying` or
/// `copyright`.
pub proof fn names_tell_files_apart(name: Seq<char>, stem: Seq<char>, rest: Seq<char>)
    requires
        lowercase(name) == stem + rest,
        !stem.contains('.'),
        rest.len() > 0 ==> rest[0] == '.',
    ensures
        is_notice_name(name) <==> stem == "notice"@ || stem == "notices"@,
        is_license_name(name) <==> starts(stem + rest, "license"@) || starts(stem + rest, "licence"@) || starts(
            stem + rest,
            "copying"@,
        ) || starts(stem + rest, "copyright"@),
{
    let s = stem + rest;
    let k = Class::Not('.');
    assert forall|i: int| 0 <= i < stem.len() implies k.has(#[trigger] s[i]) by {
        assert(s[i] == stem[i]);
        assert(stem.contains(stem[i]));
    }
    run_len_is(s, k, stem.len());
    assert(s.take(stem.len() as int) =~= stem);
    assert(LICENSE_STEMS@[0]@ == "license"@);
    assert(LICENSE_STEMS@[1]@ == "licence"@);
    assert(LICENSE_STEMS@[2]@ == "copying"@);
    assert(LICENSE_STEMS@[3]@ == "copyright"@);
    if is_license_name(name) {
        let i = choose|i: int| 0 <= i < 4 && starts(lowercase(name), #[trigger] LICENSE_STEMS@[i]@);
        assert(i == 0 || i == 1 || i == 2 || i == 3);
    }
}

/// A file is scanned exactly when its name says so, it is a file of at most a megabyte, and
/// it could be read; its text is what its bytes hold, line ends normalized.
pub proof fn moderate_files_are_scanned(f: SourceFileView)
    ensures
        scanned(f) is Some <==> f.bytes is Some && f.is_file && f.len <= 1_000_000 && (is_notice_name(f.name)
            || is_license_name(f.name)),
        scanned(f) matches Some(a) ==> {
            &&& a.name == f.name
            &&& a.is_notice == is_notice_name(f.name)
            &&& valid_utf8(f.bytes->0) ==> a.text == lf(decode_utf8(f.bytes->0))
            &&& !valid_utf8(f.bytes->0) ==> a.text == lf(utf8_lossy(f.bytes->0))
        },
{
}

/// Line ends are normalized: a carriage return before a line feed goes, another stays.
pub proof fn line_ends_are_normalized(a: Seq<char>, b: Seq<char>)
    requires
        !a.contains('\r'),
    ensures
        lf(a) == a,
        lf(a + "\r\n"@ + b) == a + "\n"@ + lf(b),
{
    reveal_strlit("\r\n");
    let p = "\r\n"@;
    replacing_starts_at_the_left(a, p, "\n"@);
    first_from_is_least(a, p, 0);
    if let Some(i) = first_at(a, p) {
        assert(a.subrange(i, i + 2)[0] == a[i]);
        assert(a.contains(a[i]));
    }
    let s = a + p + b;
    let n = a.len() as int;
    replacing_starts_at_the_left(s, p, "\n"@);
    first_from_is_least(s, p, 0);
    assert(s.subrange(n, n + 2) =~= p);
    assert(occurs_at(s, p, n));
    let i = first_at(s, p)->0;
    if i < n {
        assert(s.subrange(i, i + 2)[0] == a[i]);
        assert(a.contains(a[i]));
    }
    assert(i == n);
    assert(s.take(n) =~= a);
    assert(s.skip(n + 2) =~= b);
}

/// A statement counts in whatever file it stands, a NOTICE file as well as a license file.
pub proof fn every_file_counts(files: Seq<AttributionView>, i: int, t: Seq<char>)
    requires
        0 <= i < files.len(),
        is_statement(files[i].text, t),
    ensures
        states(files, t),
{
}

proof fn statements_are_finite(files: Seq<AttributionView>)
    ensures
        Set::new(|t: Seq<char>| states(files, t)).finite(),
    decreases files.len(),
{
    let all = Set::new(|t: Seq<char>| states(files, t));
    if files.len() == 0 {
        assert(all =~= Set::<Seq<char>>::empty());
    } else {
        let rest = files.drop_last();
        statements_are_finite(rest);
        let few = Set::new(|t: Seq<char>| states(rest, t));
        let ls = lines_of(files.last().text);
        let last = Seq::new(ls.len(), |i: int| normalized(ls[i]));
        vstd::seq_lib::seq_to_set_is_finite(last);
        assert forall|t: Seq<char>| #[trigger] all.contains(t) implies few.union(last.to_set()).contains(t) by {
            let i = choose|i: int| 0 <= i < files.len() && is_statement((#[trigger] files[i]).text, t);
            if i < rest.len() {
                assert(is_statement(rest[i].text, t));
                assert(few.contains(t));
            } else {
                let k = choose|k: int| 0 <= k < ls.len() && t == normalized(#[trigger] ls[k]);
                assert(last[k] == t);
            }
        }
        vstd::set_lib::lemma_set_subset_finite(few.union(last.to_set()), all);
    }
}

/// The statements of a crate are exactly those that stand in one of its files, each once, in
/// ascending order.
pub proof fn statements_of_a_crate(authors: Seq<Seq<char>>, files: Seq<AttributionView>, t: Seq<char>)
    ensures
        extras_of(authors, files).copyrights.contains(t) <==> exists|i: int|
            0 <= i < files.len() && is_statement((#[trigger] files[i]).text, t),
        sorted(extras_of(authors, files).copyrights),
{
    let set = Set::new(|t: Seq<char>| states(files, t));
    statements_are_finite(files);
    in_order_lists(set);
    let list = extras_of(authors, files).copyrights;
    assert(list.to_set().contains(t) <==> list.contains(t));
    assert(set.contains(t) <==> states(files, t));
}

/// Scanning a text adds its statements to those that were there, and takes none away.
pub proof fn scanning_adds_statements(was: Seq<Seq<char>>, text: Seq<char>, now: Seq<Seq<char>>, t: Seq<char>)
    requires
        adds_statements(was, text, now),
    ensures
        now.contains(t) <==> was.contains(t) || is_statement(text, t),
        sorted(now),
{
}

/// What no file states is not stated.
pub proof fn only_files_count(files: Seq<AttributionView>, t: Seq<char>)
    requires
        states(files, t),
    ensures
        exists|i: int| 0 <= i < files.len() && is_statement((#[trigger] files[i]).text, t),
{
}

proof fn notice_texts_in_two(a: Seq<AttributionView>, b: Seq<AttributionView>)
    ensures
        notice_texts(a + b) == notice_texts(a) + notice_texts(b),
    decreases b.len(),
{
    if b.len() == 0 {
        assert(a + b =~= a);
        assert(notice_texts(a) + notice_texts(b) =~= notice_texts(a));
    } else {
        notice_texts_in_two(a, b.drop_last());
        assert((a + b).drop_last() =~= a + b.drop_last());
        assert(notice_texts(a + b) =~= notice_texts(a) + notice_texts(b));
    }
}

/// The NOTICE body of a crate is the texts of its NOTICE files in full, in order, a line
/// feed between them: that of two groups of files is that of the one and of the other; a
/// license file adds nothing.
pub proof fn notice_files_are_joined(a: Seq<AttributionView>, b: Seq<AttributionView>, f: AttributionView)
    ensures
        notice_of(a + b) == match (notice_of(a), notice_of(b)) {
            (Some(x), Some(y)) => Some(x + "\n"@ + y),
            (Some(x), None) => Some(x),
            (None, y) => y,
        },
        notice_of(seq![f]) == if f.is_notice {
            Some(f.text)
        } else {
            None
        },
        notice_of(Seq::empty()) is None,
{
    notice_texts_in_two(a, b);
    let x = notice_texts(a);
    let y = notice_texts(b);
    if x.len() > 0 && y.len() > 0 {
        joined_in_two(x, y, "\n"@);
    } else if x.len() == 0 {
        assert(x + y =~= y);
    } else {
        assert(x + y =~= x);
    }
    let s = seq![f];
    assert(s.drop_last() =~= Seq::<AttributionView>::empty());
    reveal_with_fuel(notice_texts, 2);
    if f.is_notice {
        assert(notice_texts(s) =~= seq![f.text]);
    } else {
        assert(notice_texts(s) =~= Seq::<Seq<char>>::empty());
    }
}

/// What a crate ships as its NOTICE is the NOTICE body of its files.
pub proof fn notice_ships_with_the_crate(authors: Seq<Seq<char>>, files: Seq<AttributionView>, i: int)
    requires
        0 <= i < files.len(),
        files[i].is_notice,
    ensures
        extras_of(authors, files).notice is Some,
        contains(extras_of(authors, files).notice->0, files[i].text),
{
    let a = files.take(i);
    let f = files[i];
    let b = files.skip(i + 1);
    assert(files =~= a + seq![f] + b);
    notice_files_are_joined(a + seq![f], b, f);
    notice_files_are_joined(a, seq![f], f);
    let none = Seq::<char>::empty();
    let n1 = notice_of(a + seq![f])->0;
    between(none, f.text, none);
    assert(none + f.text + none =~= f.text);
    if let Some(x) = notice_of(a) {
        between(x + "\n"@, f.text, none);
        assert(x + "\n"@ + f.text + none =~= n1);
    }
    assert(contains(n1, f.text));
    if let Some(y) = notice_of(b) {
        between(none, n1, "\n"@ + y);
        assert(none + n1 + ("\n"@ + y) =~= n1 + "\n"@ + y);
        part_of_part(n1 + "\n"@ + y, n1, f.text);
    }
}

} // verus!
