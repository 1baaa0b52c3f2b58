//! Which outputs on disk are out of date.

use vstd::prelude::*;
use vstd::string::*;
use crate::harvest::{lf, to_lf};
use crate::number::{decimal, decimal_of};
use crate::paths::{extension_of, file_name, file_name_of, last_dot, place_under, split_extension, stem_of, under};
use crate::policy::{canonical_text, corpus_text};
use crate::scan::{has_prefix, lines, lines_of, parts_of, run_len, run_len_is, starts, Class};
use crate::sets::{at, keys_of, lookup, Table};
use crate::text::{cat2, cat3, cat4, chars_of, code, owned, same, text_between};
use crate::versions::{pre_release, semver_pre};

verus! {

/// Names the file in the error of an operation on it.
pub fn io<T>(path: &str, r: Result<T, String>) -> (res: Result<T, String>)
    ensures
        match r {
            Ok(v) => res == Ok::<T, String>(v),
            Err(e) => res matches Err(m) && m@ == path@ + ": "@ + e@,
        },
{
    match r {
        Ok(v) => Ok(v),
        Err(e) => Err(cat3(path, ": ", e.as_str())),
    }
}

// ---------------------------------------------------------------- orphans

/// The stem of a path that ends in a `.txt` file.
pub open spec fn txt_stem(path: Seq<char>) -> Option<Seq<char>> {
    match file_name_of(path) {
        Some(n) => if extension_of(n) == Some("txt"@) {
            Some(stem_of(n))
        } else {
            None
        },
        None => None,
    }
}

/// The stem of a path that ends in a `.txt` file.
pub fn text_stem(path: &str) -> (r: Option<String>)
    ensures
        r.deep_view() == txt_stem(path@),
{
    match file_name(path) {
        Some(n) => {
            let (stem, ext) = split_extension(n.as_str());
            match ext {
                Some(e) => if same(e.as_str(), "txt") {
                    Some(stem)
                } else {
                    None
                },
                None => None,
            }
        },
        None => None,
    }
}

/// A license text that could have been written here and is no longer used: its stem is a
/// known id or a `LicenseRef-` name, and not among the ids in use. A `.txt` file with any
/// other stem was added by hand.
pub open spec fn orphan_text(stem: Seq<char>, known: bool, used: Seq<Seq<char>>) -> bool {
    (known || starts(stem, "LicenseRef-"@)) && !used.contains(stem)
}

/// Whether a license text could have been written here and is no longer used, given
/// whether its stem is a known id.
pub fn is_orphan_text(stem: &str, known: bool, texts: &Table<String>) -> (r: bool)
    ensures
        r == orphan_text(stem@, known, keys_of(texts.deep_view())),
{
    (known || has_prefix(stem, "LicenseRef-")) && !texts.has_key(stem)
}

/// The path is that of a license text which is no longer used.
pub open spec fn stale_license(path: Seq<char>, used: Seq<Seq<char>>) -> bool {
    txt_stem(path) matches Some(stem) && orphan_text(stem, corpus_text(stem) is Some, used)
}

/// Whether a file in the licenses folder is a text written here that is no longer used.
pub fn is_stale_license(path: &str, texts: &Table<String>) -> (r: bool)
    ensures
        r == stale_license(path@, keys_of(texts.deep_view())),
{
    match text_stem(path) {
        Some(stem) => {
            let known = canonical_text(stem.as_str()).is_some();
            is_orphan_text(stem.as_str(), known, texts)
        },
        None => false,
    }
}

/// A decimal digit.
pub open spec fn is_digit(c: char) -> bool {
    '0' <= c && c <= '9'
}

/// What a text parses to marks a version: one without a pre-release, or with a digit in
/// it. A pre-release that is a bare word (`1.0.0-agenda`) more likely ends the name of a
/// file that was added by hand.
pub open spec fn marks_version(pre: Option<Seq<char>>) -> bool {
    pre matches Some(p) && (p.len() == 0 || exists|i: int| 0 <= i < p.len() && is_digit(#[trigger] p[i]))
}

/// The stem reads `<name>-<version>`. A version may itself hold a `-`, so any of them may
/// be the one between.
pub open spec fn is_notice_stem(stem: Seq<char>) -> bool {
    exists|i: int|
        0 <= i < stem.len() && #[trigger] stem[i] == '-' && marks_version(
            semver_pre(stem.skip(i + 1)),
        )
}

/// Whether what a text parses to marks a version.
pub fn counts_as_version(pre: Option<&str>) -> (r: bool)
    ensures
        r == marks_version(pre.deep_view()),
{
    match pre {
        None => false,
        Some(p) => {
            let v = chars_of(p);
            let mut i: usize = 0;
            while i < v.len()
                invariant
                    v@ == p@,
                    pre.deep_view() == Some(p@),
                    i <= v@.len(),
                    forall|j: int| 0 <= j < i ==> !is_digit(#[trigger] p@[j]),
                decreases v.len() - i,
            {
                let n: u32 = code(v[i]);
                if code('0') <= n && n <= code('9') {
                    assert(is_digit(p@[i as int]));
                    return true;
                }
                i += 1;
            }
            v.len() == 0
        },
    }
}

/// Whether a stem reads `<name>-<version>`.
pub fn notice_stem(stem: &str) -> (r: bool)
    ensures
        r == is_notice_stem(stem@),
{
    let v = chars_of(stem);
    let mut i: usize = 0;
    while i < v.len()
        invariant
            v@ == stem@,
            i <= v@.len(),
            forall|j: int|
                0 <= j < i && #[trigger] stem@[j] == '-' ==> !marks_version(
                    semver_pre(stem@.skip(j + 1)),
                ),
        decreases v.len() - i,
    {
        if v[i] == '-' {
            let rest = text_between(&v, i + 1, v.len());
            assert(rest@ =~= stem@.skip(i + 1));
            let pre = pre_release(rest.as_str());
            let found = match &pre {
                Some(p) => counts_as_version(Some(p.as_str())),
                None => false,
            };
            if found {
                assert(stem@[i as int] == '-');
                return true;
            }
        }
        i += 1;
    }
    false
}

/// The path is that of a NOTICE file which is no longer used.
pub open spec fn stale_notice(path: Seq<char>, used: Seq<Seq<char>>) -> bool {
    txt_stem(path) matches Some(stem) && is_notice_stem(stem) && !used.contains(stem)
}

/// Whether a file in the notices folder is one written here that is no longer used. Only
/// a stem that reads `<name>-<version>` is; anything else was added by hand.
pub fn is_stale_notice(path: &str, notices: &Table<String>) -> (r: bool)
    ensures
        r == stale_notice(path@, keys_of(notices.deep_view())),
{
    match text_stem(path) {
        Some(stem) => notice_stem(stem.as_str()) && !notices.has_key(stem.as_str()),
        None => false,
    }
}

// ---------------------------------------------------------------- what is on disk

/// What was found on disk.
pub struct Disk {
    /// the files that could be read, each with its text
    pub files: Vec<(String, String)>,
    /// the folders that could be listed, each with the paths of its entries
    pub folders: Vec<(String, Vec<String>)>,
}

/// What a `Disk` holds.
pub struct DiskView {
    pub files: Seq<(Seq<char>, Seq<char>)>,
    pub folders: Seq<(Seq<char>, Seq<Seq<char>>)>,
}

impl DeepView for Disk {
    type V = DiskView;

    open spec fn deep_view(&self) -> DiskView {
        DiskView { files: self.files.deep_view(), folders: self.folders.deep_view() }
    }
}

/// The text on disk is the wanted one, line-ending style aside.
pub open spec fn current(disk: Option<Seq<char>>, want: Seq<char>) -> bool {
    disk matches Some(d) && lf(d) == want
}

/// Whether the text on disk is the wanted one, line-ending style aside. Output is written
/// with line feeds, and a checkout of it with carriage returns is not out of date; a
/// missing file is.
pub fn matches_output(disk: Option<&str>, want: &str) -> (r: bool)
    ensures
        r == current(disk.deep_view(), want@),
{
    match disk {
        Some(d) => {
            let t = to_lf(d);
            same(t.as_str(), want)
        },
        None => false,
    }
}

/// How many lines two texts have in common at their start.
pub open spec fn common_lines(a: Seq<Seq<char>>, b: Seq<Seq<char>>) -> nat
    decreases a.len(),
{
    if a.len() == 0 || b.len() == 0 || a[0] != b[0] {
        0
    } else {
        1 + common_lines(a.drop_first(), b.drop_first())
    }
}

/// How many lines two texts have in common at their start.
fn count_common(a: &Vec<String>, b: &Vec<String>) -> (r: usize)
    ensures
        r == common_lines(a.deep_view(), b.deep_view()),
{
    let ghost x = a.deep_view();
    let ghost y = b.deep_view();
    let mut i: usize = 0;
    assert(x.skip(0) =~= x);
    assert(y.skip(0) =~= y);
    while i < a.len() && i < b.len()
        invariant
            x == a.deep_view(),
            y == b.deep_view(),
            i <= a@.len(),
            i <= b@.len(),
            common_lines(x, y) == i + common_lines(x.skip(i as int), y.skip(i as int)),
        decreases a.len() - i,
    {
        let ghost s = x.skip(i as int);
        let ghost t = y.skip(i as int);
        assert(s[0] == a@[i as int]@ && t[0] == b@[i as int]@);
        assert(s.drop_first() =~= x.skip(i + 1));
        assert(t.drop_first() =~= y.skip(i + 1));
        if !same(a[i].as_str(), b[i].as_str()) {
            return i;
        }
        i += 1;
    }
    i
}

/// The message for a document that drifted: its path and, if it is there at all, the
/// first line that differs.
pub open spec fn drift(path: Seq<char>, disk: Option<Seq<char>>, want: Seq<char>) -> Option<
    Seq<char>,
> {
    if current(disk, want) {
        None
    } else {
        match disk {
            Some(d) => Some(
                path + " (first difference at line "@ + decimal_of(
                    common_lines(lines_of(lf(d)), lines_of(want)) + 1,
                ) + ")"@,
            ),
            None => Some(path),
        }
    }
}

/// A written document that drifted, pointing at the first line that differs.
pub fn stale_doc(path: &str, disk: Option<&str>, want: &str) -> (r: Option<String>)
    ensures
        r.deep_view() == drift(path@, disk.deep_view(), want@),
{
    if matches_output(disk, want) {
        return None;
    }
    match disk {
        Some(d) => {
            let t = to_lf(d);
            let a = lines(t.as_str());
            let b = lines(want);
            let n: u128 = count_common(&a, &b) as u128 + 1;
            let line = decimal(n);
            Some(cat4(path, " (first difference at line ", line.as_str(), ")"))
        },
        None => Some(owned(path)),
    }
}

/// Where the file of an entry stands: its folder, its key, `.txt`.
pub open spec fn entry_path(dir: Seq<char>, key: Seq<char>) -> Seq<char> {
    under(dir, key + ".txt"@)
}

/// Where the file of an entry stands.
pub fn path_of(dir: &str, key: &str) -> (r: String)
    ensures
        r@ == entry_path(dir@, key@),
{
    let name = cat2(key, ".txt");
    place_under(dir, name.as_str())
}

/// The files of a folder that are missing or differ from what is wanted.
pub open spec fn drifted(
    dir: Seq<char>,
    rows: Seq<(Seq<char>, Seq<char>)>,
    files: Seq<(Seq<char>, Seq<char>)>,
) -> Seq<Seq<char>>
    decreases rows.len(),
{
    if rows.len() == 0 {
        Seq::empty()
    } else {
        let rest = drifted(dir, rows.drop_last(), files);
        let path = entry_path(dir, rows.last().0);
        if current(at(files, path), rows.last().1) {
            rest
        } else {
            rest.push(path)
        }
    }
}

/// The entries of a list that were written here as license texts and are no longer used.
pub open spec fn license_orphans(entries: Seq<Seq<char>>, used: Seq<Seq<char>>) -> Seq<Seq<char>> {
    entries.filter(|p: Seq<char>| stale_license(p, used))
}

/// The entries of a list that were written here as NOTICE files and are no longer used.
pub open spec fn notice_orphans(entries: Seq<Seq<char>>, used: Seq<Seq<char>>) -> Seq<Seq<char>> {
    entries.filter(|p: Seq<char>| stale_notice(p, used))
}

/// The entries of a folder, none if it could not be listed.
pub open spec fn entries_of(d: DiskView, dir: Seq<char>) -> Seq<Seq<char>> {
    match at(d.folders, dir) {
        Some(e) => e,
        None => Seq::empty(),
    }
}

/// An optional text as a list.
pub open spec fn as_list(o: Option<Seq<char>>) -> Seq<Seq<char>> {
    match o {
        Some(t) => seq![t],
        None => Seq::empty(),
    }
}

/// The paths that a plain run would create, change or delete.
pub open spec fn stale_paths(
    licenses_dir: Seq<char>,
    texts: Seq<(Seq<char>, Seq<char>)>,
    notices_dir: Seq<char>,
    notices: Seq<(Seq<char>, Seq<char>)>,
    manifest_path: Seq<char>,
    manifest: Seq<char>,
    d: DiskView,
) -> Seq<Seq<char>> {
    drifted(licenses_dir, texts, d.files) + license_orphans(
        entries_of(d, licenses_dir),
        keys_of(texts),
    ) + drifted(notices_dir, notices, d.files) + notice_orphans(
        entries_of(d, notices_dir),
        keys_of(notices),
    ) + as_list(drift(manifest_path, at(d.files, manifest_path), manifest))
}

/// A borrowed optional text.
fn text_at<'a>(files: &'a Vec<(String, String)>, path: &str) -> (r: Option<&'a str>)
    ensures
        r.deep_view() == at(files.deep_view(), path@),
{
    match lookup(files, path) {
        Some(t) => Some(t.as_str()),
        None => None,
    }
}

/// Appends the files of a folder that are missing or differ from what is wanted.
fn add_drifted(dir: &str, rows: &Table<String>, disk: &Disk, stale: &mut Vec<String>)
    ensures
        final(stale).deep_view() == old(stale).deep_view() + drifted(
            dir@,
            rows.deep_view(),
            disk.deep_view().files,
        ),
{
    let ghost was = stale.deep_view();
    let ghost all = rows.deep_view();
    let ghost files = disk.deep_view().files;
    let mut i: usize = 0;
    assert(was + drifted(dir@, all.take(0), files) =~= was);
    while i < rows.rows.len()
        invariant
            all == rows.deep_view(),
            files == disk.deep_view().files,
            i <= rows.rows@.len(),
            stale.deep_view() == was + drifted(dir@, all.take(i as int), files),
        decreases rows.rows.len() - i,
    {
        let row = &rows.rows[i];
        let ghost t = all.take(i + 1);
        let ghost o = stale.deep_view();
        assert(t.drop_last() =~= all.take(i as int));
        assert(t.last() == row.deep_view());
        let path = path_of(dir, row.0.as_str());
        if !matches_output(text_at(&disk.files, path.as_str()), row.1.as_str()) {
            let ghost p = path@;
            stale.push(path);
            assert(stale.deep_view() =~= o.push(p));
            assert(o.push(p) =~= was + drifted(dir@, all.take(i as int), files).push(p));
        }
        i += 1;
    }
    assert(all.take(i as int) =~= all);
}

/// The license texts in a folder that were written here and are no longer used.
pub fn orphan_licenses(entries: &Vec<String>, texts: &Table<String>) -> (r: Vec<String>)
    ensures
        r.deep_view() == license_orphans(entries.deep_view(), keys_of(texts.deep_view())),
{
    let ghost all = entries.deep_view();
    let ghost used = keys_of(texts.deep_view());
    let ghost pred = |p: Seq<char>| stale_license(p, used);
    let mut out: Vec<String> = Vec::new();
    let mut i: usize = 0;
    proof {
        reveal(Seq::filter);
        assert(all.take(0).filter(pred) =~= Seq::<Seq<char>>::empty());
        assert(out.deep_view() =~= Seq::<Seq<char>>::empty());
    }
    while i < entries.len()
        invariant
            all == entries.deep_view(),
            used == keys_of(texts.deep_view()),
            pred == (|p: Seq<char>| stale_license(p, used)),
            i <= entries@.len(),
            out.deep_view() == all.take(i as int).filter(pred),
        decreases entries.len() - i,
    {
        let ghost t = all.take(i + 1);
        let ghost o = out.deep_view();
        let ghost x = all[i as int];
        proof {
            reveal(Seq::filter);
            assert(t.drop_last() =~= all.take(i as int));
            assert(t.last() == x);
        }
        if is_stale_license(entries[i].as_str(), texts) {
            out.push(owned(entries[i].as_str()));
            assert(out.deep_view() =~= o.push(x));
        }
        i += 1;
    }
    assert(all.take(i as int) =~= all);
    out
}

/// The NOTICE files in a folder that were written here and are no longer used.
pub fn orphan_notices(entries: &Vec<String>, notices: &Table<String>) -> (r: Vec<String>)
    ensures
        r.deep_view() == notice_orphans(entries.deep_view(), keys_of(notices.deep_view())),
{
    let ghost all = entries.deep_view();
    let ghost used = keys_of(notices.deep_view());
    let ghost pred = |p: Seq<char>| stale_notice(p, used);
    let mut out: Vec<String> = Vec::new();
    let mut i: usize = 0;
    proof {
        reveal(Seq::filter);
        assert(all.take(0).filter(pred) =~= Seq::<Seq<char>>::empty());
        assert(out.deep_view() =~= Seq::<Seq<char>>::empty());
    }
    while i < entries.len()
        invariant
            all == entries.deep_view(),
            used == keys_of(notices.deep_view()),
            pred == (|p: Seq<char>| stale_notice(p, used)),
            i <= entries@.len(),
            out.deep_view() == all.take(i as int).filter(pred),
        decreases entries.len() - i,
    {
        let ghost t = all.take(i + 1);
        let ghost o = out.deep_view();
        let ghost x = all[i as int];
        proof {
            reveal(Seq::filter);
            assert(t.drop_last() =~= all.take(i as int));
            assert(t.last() == x);
        }
        if is_stale_notice(entries[i].as_str(), notices) {
            out.push(owned(entries[i].as_str()));
            assert(out.deep_view() =~= o.push(x));
        }
        i += 1;
    }
    assert(all.take(i as int) =~= all);
    out
}

/// The entries of a folder, none if it could not be listed.
fn listed_entries(disk: &Disk, dir: &str) -> (r: Vec<String>)
    ensures
        r.deep_view() == entries_of(disk.deep_view(), dir@),
{
    match lookup(&disk.folders, dir) {
        Some(e) => e.clone(),
        None => {
            let none: Vec<String> = Vec::new();
            assert(none.deep_view() =~= Seq::<Seq<char>>::empty());
            none
        },
    }
}

/// The paths that a plain run would create, change or delete; none means that the output
/// is up to date. Texts and notices that are no longer used count too, so that a check
/// cannot pass while stale files still sit in the tree.
pub fn stale_outputs(
    licenses_dir: &str,
    texts: &Table<String>,
    notices_dir: &str,
    notices: &Table<String>,
    manifest_path: &str,
    manifest: &str,
    disk: &Disk,
) -> (r: Vec<String>)
    ensures
        r.deep_view() == stale_paths(
            licenses_dir@,
            texts.deep_view(),
            notices_dir@,
            notices.deep_view(),
            manifest_path@,
            manifest@,
            disk.deep_view(),
        ),
{
    let mut stale: Vec<String> = Vec::new();
    let ghost d = disk.deep_view();
    let ghost a = drifted(licenses_dir@, texts.deep_view(), d.files);
    let ghost b = license_orphans(entries_of(d, licenses_dir@), keys_of(texts.deep_view()));
    let ghost c = drifted(notices_dir@, notices.deep_view(), d.files);
    let ghost e = notice_orphans(entries_of(d, notices_dir@), keys_of(notices.deep_view()));
    add_drifted(licenses_dir, texts, disk, &mut stale);
    assert(stale.deep_view() =~= a);
    let in_licenses = listed_entries(disk, licenses_dir);
    let mut more = orphan_licenses(&in_licenses, texts);
    stale.append(&mut more);
    assert(stale.deep_view() =~= a + b);
    add_drifted(notices_dir, notices, disk, &mut stale);
    assert(stale.deep_view() =~= a + b + c);
    let in_notices = listed_entries(disk, notices_dir);
    let mut more = orphan_notices(&in_notices, notices);
    stale.append(&mut more);
    assert(stale.deep_view() =~= a + b + c + e);
    match stale_doc(manifest_path, text_at(&disk.files, manifest_path), manifest) {
        Some(entry) => {
            let ghost m = entry@;
            stale.push(entry);
            assert(stale.deep_view() =~= a + b + c + e + seq![m]);
        },
        None => {
            assert(stale.deep_view() =~= a + b + c + e + Seq::<Seq<char>>::empty());
        },
    }
    stale
}

// ---------------------------------------------------------------- laws

/// Every wanted file of a folder is on disk as it should be.
pub open spec fn all_current(
    dir: Seq<char>,
    rows: Seq<(Seq<char>, Seq<char>)>,
    files: Seq<(Seq<char>, Seq<char>)>,
) -> bool {
    forall|i: int|
        0 <= i < rows.len() ==> current(
            at(files, entry_path(dir, (#[trigger] rows[i]).0)),
            rows[i].1,
        )
}

/// No file of a folder is out of date exactly when every wanted one is as it should be.
proof fn drifted_none(
    dir: Seq<char>,
    rows: Seq<(Seq<char>, Seq<char>)>,
    files: Seq<(Seq<char>, Seq<char>)>,
)
    ensures
        drifted(dir, rows, files).len() == 0 <==> all_current(dir, rows, files),
    decreases rows.len(),
{
    if rows.len() > 0 {
        let t = rows.drop_last();
        drifted_none(dir, t, files);
        if all_current(dir, rows, files) {
            assert forall|i: int| 0 <= i < t.len() implies current(
                at(files, entry_path(dir, (#[trigger] t[i]).0)),
                t[i].1,
            ) by {
                assert(t[i] == rows[i]);
            }
            assert(rows[rows.len() - 1] == rows.last());
        }
        if drifted(dir, rows, files).len() == 0 {
            assert forall|i: int| 0 <= i < rows.len() implies current(
                at(files, entry_path(dir, (#[trigger] rows[i]).0)),
                rows[i].1,
            ) by {
                if i < t.len() {
                    assert(t[i] == rows[i]);
                }
            }
        }
    }
}

/// A filter keeps nothing exactly when nothing is to be kept.
proof fn filter_none(s: Seq<Seq<char>>, pred: spec_fn(Seq<char>) -> bool)
    ensures
        s.filter(pred).len() == 0 <==> forall|i: int| 0 <= i < s.len() ==> !pred(#[trigger] s[i]),
    decreases s.len(),
{
    reveal(Seq::filter);
    if s.len() > 0 {
        let t = s.drop_last();
        filter_none(t, pred);
        if s.filter(pred).len() == 0 {
            assert forall|i: int| 0 <= i < s.len() implies !pred(#[trigger] s[i]) by {
                if i < t.len() {
                    assert(t[i] == s[i]);
                }
            }
        }
        if forall|i: int| 0 <= i < s.len() ==> !pred(#[trigger] s[i]) {
            assert forall|i: int| 0 <= i < t.len() implies !pred(#[trigger] t[i]) by {
                assert(t[i] == s[i]);
            }
            assert(!pred(s[s.len() - 1]));
        }
    }
}

/// A check finds nothing exactly when every wanted text, NOTICE and the manifest are on
/// disk as they should be, and no file that was written here and is no longer used sits
/// in the folders.
pub proof fn nothing_is_stale_when_all_is_current(
    licenses_dir: Seq<char>,
    texts: Seq<(Seq<char>, Seq<char>)>,
    notices_dir: Seq<char>,
    notices: Seq<(Seq<char>, Seq<char>)>,
    manifest_path: Seq<char>,
    manifest: Seq<char>,
    d: DiskView,
)
    ensures
        stale_paths(licenses_dir, texts, notices_dir, notices, manifest_path, manifest, d).len()
            == 0 <==> {
            &&& all_current(licenses_dir, texts, d.files)
            &&& forall|i: int|
                0 <= i < entries_of(d, licenses_dir).len() ==> !stale_license(
                    #[trigger] entries_of(d, licenses_dir)[i],
                    keys_of(texts),
                )
            &&& all_current(notices_dir, notices, d.files)
            &&& forall|i: int|
                0 <= i < entries_of(d, notices_dir).len() ==> !stale_notice(
                    #[trigger] entries_of(d, notices_dir)[i],
                    keys_of(notices),
                )
            &&& current(at(d.files, manifest_path), manifest)
        },
{
    let ln = |p: Seq<char>| stale_license(p, keys_of(texts));
    let nn = |p: Seq<char>| stale_notice(p, keys_of(notices));
    let le = entries_of(d, licenses_dir);
    let ne = entries_of(d, notices_dir);
    drifted_none(licenses_dir, texts, d.files);
    drifted_none(notices_dir, notices, d.files);
    filter_none(le, ln);
    filter_none(ne, nn);
    assert((forall|i: int| 0 <= i < le.len() ==> !ln(#[trigger] le[i])) <==> forall|i: int|
        0 <= i < le.len() ==> !stale_license(#[trigger] le[i], keys_of(texts)));
    assert((forall|i: int| 0 <= i < ne.len() ==> !nn(#[trigger] ne[i])) <==> forall|i: int|
        0 <= i < ne.len() ==> !stale_notice(#[trigger] ne[i], keys_of(notices)));
}

/// A text with carriage returns put before its line feeds.
pub open spec fn crlf(s: Seq<char>) -> Seq<char>
    decreases s.len(),
{
    if s.len() == 0 {
        s
    } else if s[0] == '\n' {
        seq!['\r', '\n'] + crlf(s.drop_first())
    } else {
        seq![s[0]] + crlf(s.drop_first())
    }
}

/// Line-ending style never makes a file read as out of date: a checkout with carriage
/// returns, of a text that was written without, is current.
pub proof fn crlf_checkout_is_current(want: Seq<char>)
    requires
        !want.contains('\r'),
    ensures
        current(Some(crlf(want)), want),
        current(Some(want), want),
    decreases want.len(),
{
    reveal_strlit("\r\n");
    reveal_strlit("\n");
    let p = "\r\n"@;
    let q = "\n"@;
    let c = crlf(want);
    if want.len() > 0 {
        let rest = want.drop_first();
        assert(!rest.contains('\r')) by {
            if rest.contains('\r') {
                let k = choose|k: int| 0 <= k < rest.len() && rest[k] == '\r';
                assert(want[k + 1] == '\r');
            }
        }
        crlf_checkout_is_current(rest);
        assert(want[0] != '\r');
        // the text without carriage returns
        if starts(want, p) {
            assert(want.subrange(0, 2)[0] == '\r');
        }
        assert(seq![want[0]] + rest =~= want);
        // the text with them
        if want[0] == '\n' {
            assert(c.subrange(0, 2) =~= p);
            assert(starts(c, p));
            assert(c.skip(2) =~= crlf(rest));
            assert(q + rest =~= want);
        } else {
            assert(c[0] == want[0]);
            if starts(c, p) {
                assert(c.subrange(0, 2)[0] == '\r');
            }
            assert(c.drop_first() =~= crlf(rest));
        }
    }
}

/// What stands behind the last separator is the last part.
proof fn last_part(s: Seq<char>, c: char, n: int)
    requires
        0 <= n <= s.len(),
        n == 0 || s[n - 1] == c,
        !s.skip(n).contains(c),
    ensures
        parts_of(s, c).len() > 0,
        parts_of(s, c).last() == s.skip(n),
    decreases s.len(),
{
    let m = run_len(s, Class::Not(c));
    run_len_is(s, Class::Not(c), m);
    if m >= s.len() {
        if n > 0 {
            assert(Class::Not(c).has(s[n - 1]));
        }
        assert(s.skip(0) =~= s);
    } else {
        if n <= m {
            assert(s.skip(n)[m - n] == c);
        }
        let t = s.skip(m as int + 1);
        let k = n - (m + 1);
        assert(t.skip(k) =~= s.skip(n));
        if k > 0 {
            assert(t[k - 1] == s[n - 1]);
        }
        last_part(t, c, k);
        assert(parts_of(s, c) =~= seq![s.take(m as int)] + parts_of(t, c));
    }
}

/// The file of an entry has the key of the entry as its stem; one without a key has no
/// stem at all.
pub proof fn entry_has_its_key(dir: Seq<char>, key: Seq<char>)
    requires
        !key.contains('/'),
    ensures
        txt_stem(entry_path(dir, key)) == if key.len() > 0 {
            Some(key)
        } else {
            None
        },
{
    reveal_strlit(".txt");
    reveal_strlit("txt");
    reveal_strlit("/");
    reveal_strlit(".");
    reveal_strlit("..");
    let name = key + ".txt"@;
    let path = entry_path(dir, key);
    assert(!name.contains('/')) by {
        if name.contains('/') {
            let k = choose|k: int| 0 <= k < name.len() && name[k] == '/';
            if k < key.len() {
                assert(key[k] == '/');
            }
        }
    }
    if starts(name, "/"@) {
        assert(name.subrange(0, 1)[0] == name[0]);
    }
    let n = path.len() - name.len();
    assert(path.skip(n) =~= name);
    last_part(path, '/', n);
    let cs = parts_of(path, '/');
    assert(cs.last() == name);
    assert(name.len() >= 4);
    assert(file_name_of(path) == Some(name));
    reveal_with_fuel(last_dot, 5);
    assert(name.last() == 't');
    let a = name.drop_last();
    assert(a.last() == 'x');
    let b = a.drop_last();
    assert(b.last() == 't');
    let c = b.drop_last();
    assert(c.last() == '.');
    assert(last_dot(name) == Some(key.len() as int));
    assert(name.take(key.len() as int) =~= key);
    assert(name.skip(key.len() as int + 1) =~= "txt"@);
}

/// The line that a drifted document is reported at is the first one that differs: all
/// lines before it are the same, and it differs or one text has ended there.
pub proof fn named_line_is_the_first_difference(a: Seq<Seq<char>>, b: Seq<Seq<char>>)
    ensures
        ({
            let n = common_lines(a, b) as int;
            &&& n <= a.len() && n <= b.len()
            &&& forall|i: int| 0 <= i < n ==> a[i] == b[i]
            &&& n < a.len() && n < b.len() ==> a[n] != b[n]
        }),
    decreases a.len(),
{
    if a.len() > 0 && b.len() > 0 && a[0] == b[0] {
        let x = a.drop_first();
        let y = b.drop_first();
        named_line_is_the_first_difference(x, y);
        let n = common_lines(a, b) as int;
        assert forall|i: int| 0 <= i < n implies a[i] == b[i] by {
            if i > 0 {
                assert(x[i - 1] == y[i - 1]);
            }
        }
        if n < a.len() && n < b.len() {
            assert(x[n - 1] == a[n] && y[n - 1] == b[n]);
        }
    }
}

} // verus!
