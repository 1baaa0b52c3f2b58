//! Copyright lines and NOTICE bodies from the files that a crate ships.

use vstd::prelude::*;
use vstd::string::*;
use vstd::utf8::{decode_utf8, valid_utf8};
use crate::scan::{contains, has_prefix, has_text, is_space, join, joined, lines, lines_of, replace, replaced, run_from, run_len, run_len_is, starts, trim, trim_by, trim_range, trimmed, without_cr, words, words_of, Class};
use crate::sets::{add_text, ascending, in_order, sort_texts, sorted, sorted_is_in_order, sorted_is_unique};
use crate::text::{alphanumeric, before, chars_of, lowercase, owned, precedes, precedes_asymmetric, precedes_total, precedes_transitive, same, text_between};

verus! {

// ---------------------------------------------------------------- copyright lines

/// Marks of a fill-in-the-blank template line (the Apache-2.0 appendix, the MIT
/// boilerplate), which names nobody.
pub const PLACEHOLDERS: [&'static str; 8] = [
    "yyyy",
    "name of copyright owner",
    "<year>",
    "<owner>",
    "<copyright holder",
    "<name of author>",
    "{year}",
    "{owner}",
];

/// Words behind "Copyright" in headings and license prose ("COPYRIGHT AND PERMISSION
/// NOTICE"), never in the statement of a holder.
pub const NOT_A_HOLDER: [&'static str; 7] = [
    "and",
    "notice",
    "notices",
    "license",
    "licenses",
    "law",
    "laws",
];

/// A line with each run of white space made one blank, and none at its ends.
pub open spec fn normalized(line: Seq<char>) -> Seq<char> {
    joined(words_of(line), " "@)
}

/// What stands behind the word or sign that starts a copyright statement. Only a
/// capitalized "Copyright" (or the sign) starts one: in lower case it is a wrapped
/// fragment of a license body.
pub open spec fn stated(line: Seq<char>) -> Option<Seq<char>> {
    if starts(line, "Copyright"@) {
        Some(line.skip("Copyright"@.len() as int))
    } else if starts(line, "COPYRIGHT"@) {
        Some(line.skip("COPYRIGHT"@.len() as int))
    } else if starts(line, "©"@) {
        Some(line.skip("©"@.len() as int))
    } else {
        None
    }
}

/// The line is a template with a blank to fill in.
pub open spec fn is_template(line: Seq<char>) -> bool {
    exists|i: int|
        0 <= i < 8 && contains(lowercase(line), #[trigger] PLACEHOLDERS@[i]@)
}

/// The statement without its "(c)" signs.
pub open spec fn holder_of(rest: Seq<char>) -> Seq<char> {
    replaced(replaced(rest, "(c)"@, " "@), "(C)"@, " "@)
}

/// The first word, without marks around it.
pub open spec fn first_word(s: Seq<char>) -> Seq<char> {
    let w = words_of(s);
    trim_by(
        if w.len() > 0 {
            w[0]
        } else {
            Seq::empty()
        },
        Class::Mark,
    )
}

/// The word belongs to license prose.
pub open spec fn is_prose(word: Seq<char>) -> bool {
    exists|i: int| 0 <= i < 7 && lowercase(word) == #[trigger] NOT_A_HOLDER@[i]@
}

/// The line states a copyright and names somebody.
pub open spec fn names_holder(line: Seq<char>) -> bool {
    match stated(line) {
        None => false,
        Some(rest) => {
            &&& !is_template(line)
            &&& exists|i: int| 0 <= i < holder_of(rest).len() && alphanumeric(#[trigger] holder_of(rest)[i])
            &&& !is_prose(first_word(holder_of(rest)))
        },
    }
}

/// The text is, white space aside, a line of the file that states a copyright.
pub open spec fn is_statement(text: Seq<char>, t: Seq<char>) -> bool {
    names_holder(t) && exists|i: int|
        0 <= i < lines_of(text).len() && t == normalized(#[trigger] lines_of(text)[i])
}

/// A list in ascending order, with the copyright statements of a text added to what it
/// held.
pub open spec fn adds_statements(was: Seq<Seq<char>>, text: Seq<char>, now: Seq<Seq<char>>) -> bool {
    &&& sorted(now)
    &&& forall|t: Seq<char>| #[trigger]
        now.contains(t) <==> was.contains(t) || is_statement(text, t)
}

/// What follows a prefix, if the text starts with it.
pub fn strip(s: &str, p: &str) -> (r: Option<String>)
    ensures
        match r {
            Some(t) => starts(s@, p@) && t@ == s@.skip(p@.len() as int),
            None => !starts(s@, p@),
        },
{
    if has_prefix(s, p) {
        let a = chars_of(s);
        let b = chars_of(p);
        let t = text_between(&a, b.len(), a.len());
        assert(t@ =~= s@.skip(p@.len() as int));
        Some(t)
    } else {
        None
    }
}

/// What stands behind the word or sign that starts a copyright statement.
fn statement_rest(line: &str) -> (r: Option<String>)
    ensures
        r.deep_view() == stated(line@),
{
    match strip(line, "Copyright") {
        Some(t) => Some(t),
        None => match strip(line, "COPYRIGHT") {
            Some(t) => Some(t),
            None => strip(line, "©"),
        },
    }
}

/// Whether the line is a template with a blank to fill in.
fn has_placeholder(line: &str) -> (r: bool)
    ensures
        r == is_template(line@),
{
    let lower = line.to_lowercase();
    let list = PLACEHOLDERS;
    let mut i: usize = 0;
    while i < 8
        invariant
            list == PLACEHOLDERS,
            lower@ == lowercase(line@),
            i <= 8,
            forall|j: int| 0 <= j < i ==> !contains(lowercase(line@), #[trigger] PLACEHOLDERS@[j]@),
        decreases 8 - i,
    {
        if has_text(lower.as_str(), list[i]) {
            assert(contains(lowercase(line@), PLACEHOLDERS@[i as int]@));
            return true;
        }
        i += 1;
    }
    false
}

/// Whether the text holds a letter or a number.
fn has_letter(s: &str) -> (r: bool)
    ensures
        r == exists|i: int| 0 <= i < s@.len() && alphanumeric(#[trigger] s@[i]),
{
    let v = chars_of(s);
    let mut i: usize = 0;
    while i < v.len()
        invariant
            v@ == s@,
            i <= v@.len(),
            forall|j: int| 0 <= j < i ==> !alphanumeric(#[trigger] s@[j]),
        decreases v.len() - i,
    {
        if v[i].is_alphanumeric() {
            assert(alphanumeric(s@[i as int]));
            return true;
        }
        i += 1;
    }
    false
}

/// Whether the first word belongs to license prose.
fn starts_prose(s: &str) -> (r: bool)
    ensures
        r == is_prose(first_word(s@)),
{
    let w = words(s);
    let ghost all = words_of(s@);
    let v = if w.len() > 0 {
        assert(all[0] == w@[0]@);
        chars_of(w[0].as_str())
    } else {
        Vec::new()
    };
    let n: usize = v.len();
    assert(v@.subrange(0, n as int) =~= v@);
    let word = trim_range(&v, 0, n, Class::Mark);
    assert(word@ == first_word(s@));
    let lower = word.as_str().to_lowercase();
    let list = NOT_A_HOLDER;
    let mut i: usize = 0;
    while i < 7
        invariant
            list == NOT_A_HOLDER,
            word@ == first_word(s@),
            lower@ == lowercase(word@),
            i <= 7,
            forall|j: int| 0 <= j < i ==> lowercase(word@) != #[trigger] NOT_A_HOLDER@[j]@,
        decreases 7 - i,
    {
        if same(lower.as_str(), list[i]) {
            assert(lowercase(word@) == NOT_A_HOLDER@[i as int]@);
            return true;
        }
        i += 1;
    }
    false
}

/// Whether a line states a copyright and names somebody.
pub fn is_copyright(line: &str) -> (r: bool)
    ensures
        r == names_holder(line@),
{
    match statement_rest(line) {
        None => false,
        Some(rest) => {
            if has_placeholder(line) {
                return false;
            }
            proof {
                reveal_strlit("(c)");
                reveal_strlit("(C)");
            }
            let once = replace(rest.as_str(), "(c)", " ");
            let holder = replace(once.as_str(), "(C)", " ");
            has_letter(holder.as_str()) && !starts_prose(holder.as_str())
        },
    }
}

/// Adds the copyright statements of a license or notice file to a set, with their white
/// space normalized.
pub fn copyright_lines(text: &str, out: &mut Vec<String>)
    requires
        sorted(old(out).deep_view()),
    ensures
        adds_statements(old(out).deep_view(), text@, final(out).deep_view()),
{
    let all = lines(text);
    let ghost ls = lines_of(text@);
    let ghost was = out.deep_view();
    let mut i: usize = 0;
    while i < all.len()
        invariant
            ls == all.deep_view(),
            ls == lines_of(text@),
            i <= all@.len(),
            sorted(out.deep_view()),
            forall|t: Seq<char>| #[trigger]
                out.deep_view().contains(t) <==> was.contains(t) || (names_holder(t)
                    && exists|j: int| 0 <= j < i && t == normalized(#[trigger] ls[j])),
        decreases all.len() - i,
    {
        let ghost o = out.deep_view();
        let w = words(all[i].as_str());
        let line = join(&w, " ");
        assert(line@ == normalized(ls[i as int]));
        if is_copyright(line.as_str()) {
            add_text(out, line.as_str());
            proof {
                assert forall|t: Seq<char>| #[trigger] out.deep_view().contains(t) == (o.contains(t)
                    || t == line@) by {
                    assert(out.deep_view().to_set().contains(t) == o.to_set().insert(
                        line@,
                    ).contains(t));
                }
            }
        }
        proof {
            assert forall|t: Seq<char>| #[trigger]
                out.deep_view().contains(t) == (was.contains(t) || (names_holder(t)
                    && exists|j: int| 0 <= j < i + 1 && t == normalized(#[trigger] ls[j]))) by {
                assert(out.deep_view().contains(t) == (o.contains(t) || (t == line@ && names_holder(
                    line@,
                ))));
                if names_holder(t) && exists|j: int|
                    0 <= j < i + 1 && t == normalized(#[trigger] ls[j]) {
                    let j = choose|j: int| 0 <= j < i + 1 && t == normalized(#[trigger] ls[j]);
                    if j < i {
                        assert(o.contains(t));
                    }
                }
            }
        }
        i += 1;
    }
}

// ---------------------------------------------------------------- authors

/// The name of an author without the address in angle brackets; an entry that is only
/// an address is kept.
pub open spec fn author_name(a: Seq<char>) -> Seq<char> {
    let n = run_len(a, Class::Not('<')) as int;
    if n < a.len() && trimmed(a.take(n)).len() > 0 {
        trimmed(a.take(n))
    } else {
        trimmed(a)
    }
}

/// `Alice <alice@example.com>` becomes `Alice`; an entry that is only an address is kept.
pub fn display_author(a: &str) -> (r: String)
    ensures
        r@ == author_name(a@),
{
    let v = chars_of(a);
    let n: usize = run_from(&v, 0, Class::Not('<'));
    assert(v@.skip(0) =~= v@);
    if n < v.len() {
        let name = trim_range(&v, 0, n, Class::Space);
        assert(v@.subrange(0, n as int) =~= a@.take(n as int));
        if !name.as_str().is_empty() {
            return name;
        }
    }
    trim(a)
}

// ---------------------------------------------------------------- the files of a crate

/// A larger file is not scanned.
pub const MAX_LEN: u64 = 1_000_000;

/// How the name of a license file may start, in lower case.
pub const LICENSE_STEMS: [&'static str; 4] = ["license", "licence", "copying", "copyright"];

/// What stands before the first dot.
pub open spec fn before_dot(s: Seq<char>) -> Seq<char> {
    s.take(run_len(s, Class::Not('.')) as int)
}

/// The name, in any case, is that of a NOTICE file.
pub open spec fn is_notice_name(name: Seq<char>) -> bool {
    before_dot(lowercase(name)) == "notice"@ || before_dot(lowercase(name)) == "notices"@
}

/// The name, in any case, is that of a license file.
pub open spec fn is_license_name(name: Seq<char>) -> bool {
    exists|i: int| 0 <= i < 4 && starts(lowercase(name), #[trigger] LICENSE_STEMS@[i]@)
}

/// The name is that of a file to scan.
pub open spec fn is_attribution_name(name: Seq<char>) -> bool {
    is_notice_name(name) || is_license_name(name)
}

/// Whether a lower-case name is that of a NOTICE file.
fn notice_name(lower: &str) -> (r: bool)
    ensures
        r == (before_dot(lower@) == "notice"@ || before_dot(lower@) == "notices"@),
{
    let v = chars_of(lower);
    let n: usize = run_from(&v, 0, Class::Not('.'));
    assert(v@.skip(0) =~= v@);
    let stem = text_between(&v, 0, n);
    assert(stem@ =~= before_dot(lower@));
    same(stem.as_str(), "notice") || same(stem.as_str(), "notices")
}

/// Whether a lower-case name is that of a license file.
fn license_file_name(lower: &str) -> (r: bool)
    ensures
        r == exists|i: int| 0 <= i < 4 && starts(lower@, #[trigger] LICENSE_STEMS@[i]@),
{
    let list = LICENSE_STEMS;
    let mut i: usize = 0;
    while i < 4
        invariant
            list == LICENSE_STEMS,
            i <= 4,
            forall|j: int| 0 <= j < i ==> !starts(lower@, #[trigger] LICENSE_STEMS@[j]@),
        decreases 4 - i,
    {
        if has_prefix(lower, list[i]) {
            assert(starts(lower@, LICENSE_STEMS@[i as int]@));
            return true;
        }
        i += 1;
    }
    false
}

/// What a file name says of a file: `Some(true)` for a NOTICE file, `Some(false)` for a
/// license file, `None` for one that is not scanned.
pub fn classify(name: &str) -> (r: Option<bool>)
    ensures
        r == if is_notice_name(name@) {
            Some(true)
        } else if is_license_name(name@) {
            Some(false)
        } else {
            None
        },
{
    let lower = name.to_lowercase();
    if notice_name(lower.as_str()) {
        Some(true)
    } else if license_file_name(lower.as_str()) {
        Some(false)
    } else {
        None
    }
}

/// The names of the files to scan in a directory, in ascending order.
pub fn attribution_names(names: Vec<String>) -> (r: Vec<String>)
    ensures
        ascending(r.deep_view()),
        forall|t: Seq<char>|
            #![trigger r.deep_view().to_multiset().count(t)]
            r.deep_view().to_multiset().count(t) == if is_attribution_name(t) {
                names.deep_view().to_multiset().count(t)
            } else {
                0
            },
{
    let ghost given = names.deep_view();
    let all = sort_texts(names);
    let ghost s = all.deep_view();
    let mut out: Vec<String> = Vec::new();
    let mut i: usize = 0;
    assert(s.take(0) =~= Seq::<Seq<char>>::empty());
    assert(out.deep_view() =~= Seq::<Seq<char>>::empty());
    proof {
        broadcast use vstd::seq_lib::group_to_multiset_ensures;

        assert forall|t: Seq<char>| Seq::<Seq<char>>::empty().to_multiset().count(t) == 0 by {
            assert(!Seq::<Seq<char>>::empty().contains(t));
        }
    }
    while i < all.len()
        invariant
            s == all.deep_view(),
            ascending(s),
            i <= all@.len(),
            ascending(out.deep_view()),
            forall|j: int|
                0 <= j < out@.len() ==> exists|k: int|
                    0 <= k < i && s[k] == #[trigger] out.deep_view()[j],
            forall|t: Seq<char>|
                #![trigger out.deep_view().to_multiset().count(t)]
                out.deep_view().to_multiset().count(t) == if is_attribution_name(t) {
                    s.take(i as int).to_multiset().count(t)
                } else {
                    0
                },
        decreases all.len() - i,
    {
        let ghost o = out.deep_view();
        let ghost x = s[i as int];
        proof {
            assert(s.take(i + 1) =~= s.take(i as int).push(x));
            vstd::seq_lib::to_multiset_build(s.take(i as int), x);
            vstd::seq_lib::to_multiset_build(o, x);
        }
        if classify(all[i].as_str()).is_some() {
            out.push(owned(all[i].as_str()));
            assert(out.deep_view() =~= o.push(x));
            assert forall|j: int| 0 <= j < out@.len() implies exists|k: int|
                0 <= k < i + 1 && s[k] == #[trigger] out.deep_view()[j] by {
                if j < o.len() {
                    assert(out.deep_view()[j] == o[j]);
                    let k = choose|k: int| 0 <= k < i && s[k] == #[trigger] o[j];
                    assert(s[k] == out.deep_view()[j]);
                } else {
                    assert(s[i as int] == out.deep_view()[j]);
                }
            }
            assert forall|a: int, b: int| 0 <= a < b < out@.len() implies !precedes(
                #[trigger] out.deep_view()[b],
                #[trigger] out.deep_view()[a],
            ) by {
                assert(out.deep_view()[a] == o[a]);
                if b == o.len() {
                    let k = choose|k: int| 0 <= k < i && s[k] == #[trigger] o[a];
                    assert(!precedes(s[i as int], s[k]));
                } else {
                    assert(out.deep_view()[b] == o[b]);
                }
            }
        }
        assert forall|t: Seq<char>| out.deep_view().to_multiset().count(t) == if is_attribution_name(
            t,
        ) {
            s.take(i + 1).to_multiset().count(t)
        } else {
            0
        } by {
            assert(o.to_multiset().count(t) == if is_attribution_name(t) {
                s.take(i as int).to_multiset().count(t)
            } else {
                0
            });
        }
        i += 1;
    }
    assert(s.take(i as int) =~= s);
    out
}

/// A file of a crate, as found on disk.
pub struct SourceFile {
    pub name: String,
    /// not a directory or anything else
    pub is_file: bool,
    pub len: u64,
    /// what it holds, if it could be read
    pub bytes: Option<Vec<u8>>,
}

/// What a `SourceFile` holds.
pub struct SourceFileView {
    pub name: Seq<char>,
    pub is_file: bool,
    pub len: u64,
    pub bytes: Option<Seq<u8>>,
}

impl DeepView for SourceFile {
    type V = SourceFileView;

    open spec fn deep_view(&self) -> SourceFileView {
        SourceFileView {
            name: self.name@,
            is_file: self.is_file,
            len: self.len,
            bytes: self.bytes.deep_view(),
        }
    }
}

/// A scanned license or notice file.
pub struct AttributionFile {
    pub name: String,
    /// its text, with the line ends normalized
    pub text: String,
    pub is_notice: bool,
}

/// What an `AttributionFile` holds.
pub struct AttributionView {
    pub name: Seq<char>,
    pub text: Seq<char>,
    pub is_notice: bool,
}

impl DeepView for AttributionFile {
    type V = AttributionView;

    open spec fn deep_view(&self) -> AttributionView {
        AttributionView { name: self.name@, text: self.text@, is_notice: self.is_notice }
    }
}

/// What `String::from_utf8_lossy` makes of bytes.
pub uninterp spec fn utf8_lossy(bytes: Seq<u8>) -> Seq<char>;

/// Calls `String::from_utf8_lossy`: valid UTF-8 is decoded, and what is not valid becomes
/// replacement characters; the result depends on the bytes alone.
#[verifier::external_body]
fn from_utf8_lossy(bytes: &Vec<u8>) -> (r: String)
    ensures
        r@ == utf8_lossy(bytes@),
        valid_utf8(bytes@) ==> r@ == decode_utf8(bytes@),
{
    String::from_utf8_lossy(bytes).into_owned()
}

/// The text that bytes hold: valid UTF-8 decoded, or else what is left of it.
pub open spec fn decoded(bytes: Seq<u8>) -> Seq<char> {
    if valid_utf8(bytes) {
        decode_utf8(bytes)
    } else {
        utf8_lossy(bytes)
    }
}

/// The text with each carriage return and line feed made one line feed.
pub open spec fn lf(s: Seq<char>) -> Seq<char> {
    replaced(s, "\r\n"@, "\n"@)
}

/// Makes each carriage return and line feed one line feed.
pub fn to_lf(s: &str) -> (r: String)
    ensures
        r@ == lf(s@),
{
    proof {
        reveal_strlit("\r\n");
    }
    replace(s, "\r\n", "\n")
}

/// Whether a file is one to read: a file, and of moderate size.
pub fn is_readable(is_file: bool, len: u64) -> (r: bool)
    ensures
        r == (is_file && len <= MAX_LEN),
{
    is_file && len <= MAX_LEN
}

/// The scanned file, if the name says that it is one and it is a file of moderate size
/// that could be read.
pub open spec fn scanned(f: SourceFileView) -> Option<AttributionView> {
    match f.bytes {
        Some(b) => if is_attribution_name(f.name) && f.is_file && f.len <= MAX_LEN {
            Some(
                AttributionView {
                    name: f.name,
                    text: lf(decoded(b)),
                    is_notice: is_notice_name(f.name),
                },
            )
        } else {
            None
        },
        None => None,
    }
}

/// A file put into a list behind all whose names do not come after its own.
pub open spec fn put_file(s: Seq<AttributionView>, f: AttributionView) -> Seq<AttributionView>
    decreases s.len(),
{
    if s.len() == 0 || !precedes(f.name, s.last().name) {
        s.push(f)
    } else {
        put_file(s.drop_last(), f).push(s.last())
    }
}

/// No file stands behind one whose name comes after its own.
pub open spec fn by_name(s: Seq<AttributionView>) -> bool {
    forall|i: int, j: int|
        0 <= i < j < s.len() ==> !precedes((#[trigger] s[j]).name, (#[trigger] s[i]).name)
}

/// The scanned files, by name.
pub open spec fn scans(files: Seq<SourceFileView>) -> Seq<AttributionView>
    decreases files.len(),
{
    if files.len() == 0 {
        Seq::empty()
    } else {
        match scanned(files.last()) {
            Some(a) => put_file(scans(files.drop_last()), a),
            None => scans(files.drop_last()),
        }
    }
}

/// A file with a decoded text, its line ends normalized.
pub fn attribution_of(name: &str, decoded: &str, is_notice: bool) -> (r: AttributionFile)
    ensures
        r.deep_view() == (AttributionView { name: name@, text: lf(decoded@), is_notice }),
{
    AttributionFile { name: owned(name), text: to_lf(decoded), is_notice }
}

/// Where a file is put: behind the first `i`, of which the last does not come after it, and
/// before the others, which all do.
proof fn put_file_is_insert(s: Seq<AttributionView>, f: AttributionView, i: int)
    requires
        0 <= i <= s.len(),
        i > 0 ==> !precedes(f.name, s[i - 1].name),
        forall|j: int| i <= j < s.len() ==> precedes(f.name, (#[trigger] s[j]).name),
    ensures
        put_file(s, f) == s.insert(i, f),
    decreases s.len(),
{
    if i == s.len() {
        assert(s.insert(i, f) =~= s.push(f));
    } else {
        assert(precedes(f.name, s[s.len() - 1].name));
        let t = s.drop_last();
        put_file_is_insert(t, f, i);
        assert(s.insert(i, f) =~= t.insert(i, f).push(s.last()));
    }
}

/// Puts a file into a list behind all whose names do not come after its own.
fn insert_file(out: &mut Vec<AttributionFile>, f: AttributionFile)
    ensures
        final(out).deep_view() == put_file(old(out).deep_view(), f.deep_view()),
{
    let ghost s = out.deep_view();
    let ghost x = f.deep_view();
    let mut i: usize = out.len();
    while i > 0 && before(f.name.as_str(), out[i - 1].name.as_str())
        invariant
            out.deep_view() == s,
            x == f.deep_view(),
            i <= out@.len(),
            forall|j: int| i <= j < s.len() ==> precedes(x.name, (#[trigger] s[j]).name),
        decreases i,
    {
        assert(out@[i - 1].deep_view() == s[i - 1]);
        i -= 1;
    }
    if i > 0 {
        let ahead = before(f.name.as_str(), out[i - 1].name.as_str());
        assert(out@[i - 1].deep_view() == s[i - 1]);
        assert(!ahead);
    }
    out.insert(i, f);
    assert(out.deep_view() =~= s.insert(i as int, x));
    proof {
        put_file_is_insert(s, x, i as int);
    }
}

/// The license and notice files among the files of a crate, by name. A directory, a huge
/// file and one that could not be read are skipped.
pub fn attribution_files(files: &Vec<SourceFile>) -> (r: Vec<AttributionFile>)
    ensures
        r.deep_view() == scans(files.deep_view()),
        by_name(r.deep_view()),
{
    let ghost all = files.deep_view();
    let mut out: Vec<AttributionFile> = Vec::new();
    let mut i: usize = 0;
    assert(out.deep_view() =~= scans(all.take(0)));
    while i < files.len()
        invariant
            all == files.deep_view(),
            i <= files@.len(),
            out.deep_view() == scans(all.take(i as int)),
        decreases files.len() - i,
    {
        let f = &files[i];
        let ghost t = all.take(i + 1);
        assert(t.drop_last() =~= all.take(i as int));
        assert(t.last() == f.deep_view());
        if let Some(is_notice) = classify(f.name.as_str()) {
            if is_readable(f.is_file, f.len) {
                if let Some(b) = &f.bytes {
                    assert(b.deep_view() =~= b@);
                    let text = from_utf8_lossy(b);
                    let found = attribution_of(f.name.as_str(), text.as_str(), is_notice);
                    assert(scanned(f.deep_view()) == Some(found.deep_view()));
                    insert_file(&mut out, found);
                }
            }
        }
        i += 1;
    }
    assert(all.take(i as int) =~= all);
    proof {
        scans_are_by_name(all);
    }
    out
}

// ---------------------------------------------------------------- extras

/// What a crate's own files add to its attribution.
pub struct Extras {
    /// copyright statements, in ascending order
    pub copyrights: Vec<String>,
    /// the authors of its metadata, as declared
    pub authors: Vec<String>,
    /// the contents of its NOTICE files, line ends normalized
    pub notice: Option<String>,
}

/// What an `Extras` holds.
pub struct ExtrasView {
    pub copyrights: Seq<Seq<char>>,
    pub authors: Seq<Seq<char>>,
    pub notice: Option<Seq<char>>,
}

impl DeepView for Extras {
    type V = ExtrasView;

    open spec fn deep_view(&self) -> ExtrasView {
        ExtrasView {
            copyrights: self.copyrights.deep_view(),
            authors: self.authors.deep_view(),
            notice: self.notice.deep_view(),
        }
    }
}

/// The texts of the NOTICE files, in order.
pub open spec fn notice_texts(files: Seq<AttributionView>) -> Seq<Seq<char>>
    decreases files.len(),
{
    if files.len() == 0 {
        Seq::empty()
    } else if files.last().is_notice {
        notice_texts(files.drop_last()).push(files.last().text)
    } else {
        notice_texts(files.drop_last())
    }
}

/// The NOTICE body: the NOTICE files, a line feed between them, if there are any.
pub open spec fn notice_of(files: Seq<AttributionView>) -> Option<Seq<char>> {
    if notice_texts(files).len() == 0 {
        None
    } else {
        Some(joined(notice_texts(files), "\n"@))
    }
}

/// Some scanned file states the copyright.
pub open spec fn states(files: Seq<AttributionView>, t: Seq<char>) -> bool {
    exists|i: int| 0 <= i < files.len() && is_statement((#[trigger] files[i]).text, t)
}

/// The copyright statements of scanned files, in ascending order.
pub open spec fn statements(files: Seq<AttributionView>) -> Seq<Seq<char>> {
    in_order(Set::new(|t: Seq<char>| states(files, t)))
}

/// What the scanned files of a crate add to its attribution.
pub open spec fn extras_of(authors: Seq<Seq<char>>, files: Seq<AttributionView>) -> ExtrasView {
    ExtrasView { copyrights: statements(files), authors, notice: notice_of(files) }
}

/// What the scanned files of a crate add to its attribution.
pub fn extras_from(authors: &Vec<String>, files: &Vec<AttributionFile>) -> (r: Extras)
    ensures
        r.deep_view() == extras_of(authors.deep_view(), files.deep_view()),
        sorted(r.deep_view().copyrights),
        forall|t: Seq<char>| #[trigger]
            r.deep_view().copyrights.contains(t) <==> states(files.deep_view(), t),
{
    let ghost all = files.deep_view();
    let mut copyrights: Vec<String> = Vec::new();
    let mut parts: Vec<String> = Vec::new();
    let mut i: usize = 0;
    assert(parts.deep_view() =~= notice_texts(all.take(0)));
    while i < files.len()
        invariant
            all == files.deep_view(),
            i <= files@.len(),
            sorted(copyrights.deep_view()),
            forall|t: Seq<char>| #[trigger]
                copyrights.deep_view().contains(t) <==> states(all.take(i as int), t),
            parts.deep_view() == notice_texts(all.take(i as int)),
        decreases files.len() - i,
    {
        let f = &files[i];
        let ghost u = all.take(i as int);
        let ghost v = all.take(i + 1);
        let ghost c = copyrights.deep_view();
        let ghost p = parts.deep_view();
        assert(v.drop_last() =~= u);
        assert(v.last() == f.deep_view());
        copyright_lines(f.text.as_str(), &mut copyrights);
        proof {
            assert forall|t: Seq<char>| #[trigger]
                copyrights.deep_view().contains(t) == states(v, t) by {
                assert(copyrights.deep_view().contains(t) == (c.contains(t) || is_statement(
                    f.text@,
                    t,
                )));
                if states(u, t) {
                    let j = choose|j: int| 0 <= j < u.len() && is_statement((#[trigger] u[j]).text, t);
                    assert(is_statement(v[j].text, t));
                }
                if is_statement(f.text@, t) {
                    assert(is_statement(v[i as int].text, t));
                }
                if states(v, t) {
                    let j = choose|j: int| 0 <= j < v.len() && is_statement((#[trigger] v[j]).text, t);
                    if j < i {
                        assert(is_statement(u[j].text, t));
                        assert(states(u, t));
                        assert(c.contains(t));
                    }
                }
            }
        }
        if f.is_notice {
            parts.push(owned(f.text.as_str()));
            assert(parts.deep_view() =~= p.push(f.text@));
        }
        i += 1;
    }
    assert(all.take(i as int) =~= all);
    proof {
        let want = Set::new(|t: Seq<char>| states(all, t));
        assert forall|t: Seq<char>| copyrights.deep_view().to_set().contains(t) == want.contains(
            t,
        ) by {
            assert(copyrights.deep_view().contains(t) == states(all, t));
        }
        assert(copyrights.deep_view().to_set() =~= want);
        sorted_is_in_order(copyrights.deep_view());
    }
    let notice = if parts.len() == 0 {
        None
    } else {
        Some(join(&parts, "\n"))
    };
    Extras { copyrights, authors: authors.clone(), notice }
}

/// Copyright statements, authors and NOTICE body of a crate, from its metadata and the
/// files at its root. NOTICE files are joined in the order of their names, in whatever
/// order they were found.
pub fn harvest_extras(authors: &Vec<String>, files: &Vec<SourceFile>) -> (r: Extras)
    ensures
        r.deep_view() == extras_of(authors.deep_view(), scans(files.deep_view())),
        by_name(scans(files.deep_view())),
        sorted(r.deep_view().copyrights),
        forall|t: Seq<char>| #[trigger]
            r.deep_view().copyrights.contains(t) <==> states(scans(files.deep_view()), t),
{
    let found = attribution_files(files);
    extras_from(authors, &found)
}

// ---------------------------------------------------------------- laws

/// Putting a file into a list in the order of names keeps the order, adds that file and
/// drops none.
proof fn put_file_keeps_order(s: Seq<AttributionView>, f: AttributionView)
    requires
        by_name(s),
    ensures
        by_name(put_file(s, f)),
        forall|x: AttributionView| #[trigger]
            put_file(s, f).contains(x) <==> s.contains(x) || x == f,
    decreases s.len(),
{
    let t = put_file(s, f);
    if s.len() == 0 || !precedes(f.name, s.last().name) {
        assert forall|i: int, j: int| 0 <= i < j < t.len() implies !precedes(
            (#[trigger] t[j]).name,
            (#[trigger] t[i]).name,
        ) by {
            assert(t[i] == s[i]);
            if j < s.len() {
                assert(t[j] == s[j]);
            } else {
                let l = s[s.len() - 1];
                precedes_total(l.name, s[i].name);
                if i < s.len() - 1 {
                    assert(!precedes(l.name, s[i].name));
                }
                if precedes(f.name, s[i].name) && precedes(s[i].name, l.name) {
                    precedes_transitive(f.name, s[i].name, l.name);
                }
            }
        }
        assert forall|x: AttributionView| #[trigger] t.contains(x) == (s.contains(x) || x == f) by {
            if s.contains(x) {
                let k = choose|k: int| 0 <= k < s.len() && s[k] == x;
                assert(t[k] == x);
            }
            if x == f {
                assert(t[s.len() as int] == x);
            }
        }
    } else {
        let rest = s.drop_last();
        let l = s.last();
        put_file_keeps_order(rest, f);
        let u = put_file(rest, f);
        precedes_asymmetric(f.name, l.name);
        assert forall|i: int, j: int| 0 <= i < j < t.len() implies !precedes(
            (#[trigger] t[j]).name,
            (#[trigger] t[i]).name,
        ) by {
            assert(t[i] == u[i]);
            if j < u.len() {
                assert(t[j] == u[j]);
            } else {
                assert(u.contains(u[i]));
                if rest.contains(u[i]) {
                    let k = choose|k: int| 0 <= k < rest.len() && rest[k] == u[i];
                    assert(s[k] == u[i]);
                    assert(s[s.len() - 1] == l);
                }
            }
        }
        assert forall|x: AttributionView| #[trigger] t.contains(x) == (s.contains(x) || x == f) by {
            if u.contains(x) {
                let k = choose|k: int| 0 <= k < u.len() && u[k] == x;
                assert(t[k] == x);
            }
            if x == l {
                assert(t[u.len() as int] == x);
                assert(s[s.len() - 1] == x);
            }
            if rest.contains(x) {
                let k = choose|k: int| 0 <= k < rest.len() && rest[k] == x;
                assert(s[k] == x);
            }
            if s.contains(x) && x != l {
                let k = choose|k: int| 0 <= k < s.len() && s[k] == x;
                assert(rest[k] == x);
            }
            if t.contains(x) && x != l {
                let k = choose|k: int| 0 <= k < t.len() && t[k] == x;
                assert(u[k] == x);
            }
        }
    }
}

/// The scanned files of a crate are those that its files stand for, in the order of their
/// names, in whatever order the files were found.
pub proof fn scans_are_by_name(files: Seq<SourceFileView>)
    ensures
        by_name(scans(files)),
        forall|a: AttributionView| #[trigger]
            scans(files).contains(a) <==> exists|i: int|
                0 <= i < files.len() && scanned(#[trigger] files[i]) == Some(a),
    decreases files.len(),
{
    if files.len() > 0 {
        let rest = files.drop_last();
        scans_are_by_name(rest);
        if let Some(f) = scanned(files.last()) {
            put_file_keeps_order(scans(rest), f);
        }
        assert forall|a: AttributionView| #[trigger]
            scans(files).contains(a) == exists|i: int|
                0 <= i < files.len() && scanned(#[trigger] files[i]) == Some(a) by {
            assert(scans(files).contains(a) == (scans(rest).contains(a) || scanned(files.last())
                == Some(a)));
            if scans(rest).contains(a) {
                let k = choose|k: int|
                    0 <= k < rest.len() && scanned(#[trigger] rest[k]) == Some(a);
                assert(files[k] == rest[k]);
            }
            if scanned(files.last()) == Some(a) {
                assert(scanned(files[files.len() - 1]) == Some(a));
            }
            if exists|i: int| 0 <= i < files.len() && scanned(#[trigger] files[i]) == Some(a) {
                let k = choose|k: int|
                    0 <= k < files.len() && scanned(#[trigger] files[k]) == Some(a);
                if k < rest.len() {
                    assert(rest[k] == files[k]);
                }
            }
        }
    }
}

/// White space at the end of a line is not part of a word.
proof fn words_end_before_space(s: Seq<char>)
    requires
        s.len() > 0,
        is_space(s.last()),
    ensures
        words_of(s) == words_of(s.drop_last()),
    decreases s.len(),
{
    let r = s.drop_last();
    let m = run_len(s, Class::Space);
    run_len_is(s, Class::Space, m);
    if m == s.len() {
        run_len_is(r, Class::Space, r.len());
        assert(s.skip(m as int).len() == 0);
        assert(r.skip(r.len() as int).len() == 0);
    } else {
        assert(m < s.len() - 1);
        run_len_is(r, Class::Space, m);
        let t = s.skip(m as int);
        let u = r.skip(m as int);
        assert(u =~= t.drop_last());
        let n = run_len(t, Class::Ink);
        run_len_is(t, Class::Ink, n);
        assert(t.last() == s.last());
        assert(t[0] == s[m as int]);
        assert(0 < n < t.len());
        assert forall|i: int| 0 <= i < n implies Class::Ink.has(#[trigger] u[i]) by {
            assert(u[i] == t[i]);
        }
        run_len_is(u, Class::Ink, n);
        assert(u.take(n as int) =~= t.take(n as int));
        assert(u.skip(n as int) =~= t.skip(n as int).drop_last());
        words_end_before_space(t.skip(n as int));
    }
}

/// Some line of a list is, white space aside, the text.
spec fn has_line(lines: Seq<Seq<char>>, t: Seq<char>) -> bool {
    exists|i: int| 0 <= i < lines.len() && t == normalized(#[trigger] lines[i])
}

proof fn has_line_in_front(line: Seq<char>, rest: Seq<Seq<char>>, t: Seq<char>)
    ensures
        has_line(seq![line] + rest, t) <==> t == normalized(line) || has_line(rest, t),
{
    let all = seq![line] + rest;
    assert(all[0] == line);
    if has_line(rest, t) {
        let i = choose|i: int| 0 <= i < rest.len() && t == normalized(#[trigger] rest[i]);
        assert(all[i + 1] == rest[i]);
    }
    if has_line(all, t) {
        let i = choose|i: int| 0 <= i < all.len() && t == normalized(#[trigger] all[i]);
        if i > 0 {
            assert(rest[i - 1] == all[i]);
        }
    }
}

/// An empty line names nobody.
proof fn nobody_is_named_by_nothing()
    ensures
        !names_holder(normalized(Seq::empty())),
{
    reveal_strlit("Copyright");
    reveal_strlit("COPYRIGHT");
    reveal_strlit("©");
    let e = Seq::<char>::empty();
    assert(e.skip(0) =~= e);
    assert(words_of(e) =~= Seq::<Seq<char>>::empty());
    assert(normalized(e) =~= e);
}

/// Two texts with a line feed between them state what either of them states, and nothing
/// else.
pub proof fn joined_texts_state_the_same(a: Seq<char>, b: Seq<char>, t: Seq<char>)
    ensures
        is_statement(a + "\n"@ + b, t) <==> is_statement(a, t) || is_statement(b, t),
    decreases a.len(),
{
    reveal_strlit("\n");
    let s = a + "\n"@ + b;
    let n = run_len(a, Class::Not('\n')) as int;
    run_len_is(a, Class::Not('\n'), n as nat);
    assert forall|i: int| 0 <= i < n implies Class::Not('\n').has(#[trigger] s[i]) by {
        assert(s[i] == a[i]);
    }
    assert(s[n] == '\n');
    run_len_is(s, Class::Not('\n'), n as nat);
    let head = without_cr(a.take(n));
    assert(s.take(n) =~= a.take(n));
    assert(is_statement(a, t) == (names_holder(t) && has_line(lines_of(a), t)));
    assert(is_statement(b, t) == (names_holder(t) && has_line(lines_of(b), t)));
    assert(is_statement(s, t) == (names_holder(t) && has_line(lines_of(s), t)));
    if n < a.len() {
        let rest = a.skip(n + 1);
        assert(s.skip(n + 1) =~= rest + "\n"@ + b);
        joined_texts_state_the_same(rest, b, t);
        has_line_in_front(head, lines_of(rest), t);
        has_line_in_front(head, lines_of(s.skip(n + 1)), t);
        assert(is_statement(rest, t) == (names_holder(t) && has_line(lines_of(rest), t)));
        assert(is_statement(s.skip(n + 1), t) == (names_holder(t) && has_line(
            lines_of(s.skip(n + 1)),
            t,
        )));
    } else {
        assert(s.skip(n + 1) =~= b);
        assert(a.take(n) =~= a);
        has_line_in_front(head, lines_of(b), t);
        if a.len() > 0 {
            if a.last() == '\r' {
                words_end_before_space(a);
            }
            has_line_in_front(a, Seq::empty(), t);
            assert(seq![a] + Seq::<Seq<char>>::empty() =~= seq![a]);
        } else {
            nobody_is_named_by_nothing();
            assert(head =~= Seq::<char>::empty());
        }
    }
}

/// Collecting the statements of texts keeps what was there, and a text that was seen adds
/// nothing. Two texts give the same list in either order, and joined by a line feed.
pub proof fn statements_are_a_set(
    was: Seq<Seq<char>>,
    a: Seq<char>,
    b: Seq<char>,
    with_a: Seq<Seq<char>>,
    with_a_again: Seq<Seq<char>>,
    with_ab: Seq<Seq<char>>,
    with_b: Seq<Seq<char>>,
    with_ba: Seq<Seq<char>>,
    with_both: Seq<Seq<char>>,
)
    requires
        sorted(was),
        adds_statements(was, a, with_a),
        adds_statements(with_a, a, with_a_again),
        adds_statements(with_a, b, with_ab),
        adds_statements(was, b, with_b),
        adds_statements(with_b, a, with_ba),
        adds_statements(was, a + "\n"@ + b, with_both),
    ensures
        forall|t: Seq<char>| #[trigger] was.contains(t) ==> with_a.contains(t),
        with_a_again == with_a,
        with_ba == with_ab,
        with_both == with_ab,
{
    assert forall|t: Seq<char>| with_a_again.to_set().contains(t) == with_a.to_set().contains(t) by {
        assert(with_a_again.contains(t) == (with_a.contains(t) || is_statement(a, t)));
        assert(with_a.contains(t) == (was.contains(t) || is_statement(a, t)));
    }
    assert(with_a_again.to_set() =~= with_a.to_set());
    sorted_is_unique(with_a_again, with_a);
    assert forall|t: Seq<char>| with_ab.contains(t) == (was.contains(t) || is_statement(a, t)
        || is_statement(b, t)) by {
        assert(with_a.contains(t) == (was.contains(t) || is_statement(a, t)));
    }
    assert forall|t: Seq<char>| with_ba.to_set().contains(t) == with_ab.to_set().contains(t) by {
        assert(with_ba.contains(t) == (with_b.contains(t) || is_statement(a, t)));
        assert(with_b.contains(t) == (was.contains(t) || is_statement(b, t)));
        assert(with_ab.contains(t) == (was.contains(t) || is_statement(a, t) || is_statement(b, t)));
    }
    assert(with_ba.to_set() =~= with_ab.to_set());
    sorted_is_unique(with_ba, with_ab);
    assert forall|t: Seq<char>| with_both.to_set().contains(t) == with_ab.to_set().contains(t) by {
        joined_texts_state_the_same(a, b, t);
        assert(with_both.contains(t) == (was.contains(t) || is_statement(a + "\n"@ + b, t)));
        assert(with_ab.contains(t) == (was.contains(t) || is_statement(a, t) || is_statement(b, t)));
    }
    assert(with_both.to_set() =~= with_ab.to_set());
    sorted_is_unique(with_both, with_ab);
}

} // verus!
