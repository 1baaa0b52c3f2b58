//! What is written, what is removed, and what counts as out of date.

use vstd::prelude::*;
use crate::config::Settings;
use crate::harvest::lf;
use crate::laws::harvesting::line_ends_are_normalized;
use crate::laws::texts::{between, joined_holds_each, part_of_part};
use crate::number::decimal_of;
use crate::paths::{
    absolute, extension_of, file_name_of, last_component, last_dot, part_of, slash_link, stem_of,
    under, Part,
};
use crate::plan::{
    document_plan, license_plan, notice_plan, out_of_date, stale_failure, up_to_date, wrote, Counts,
    StepView,
};
use crate::policy::{spdx_exception_text, spdx_license_text};
use crate::scan::{contains, joined, lines_of, parts_of, starts};
use crate::sets::{at, keys_of};
use crate::stale::{
    common_lines, current, drift, drifted, entry_has_its_key, entry_path, is_digit, is_notice_stem,
    license_orphans, marks_version, notice_orphans, stale_license, stale_notice, DiskView,
};
use crate::versions::semver_pre;

verus! {

// ---------------------------------------------------------------- paths

proof fn absolute_starts_with_a_slash(path: Seq<char>)
    ensures
        absolute(path) <==> path.len() > 0 && path[0] == '/',
{
    reveal_strlit("/");
    if path.len() > 0 {
        let front = path.subrange(0, "/"@.len() as int);
        assert(front.len() == 1 && front[0] == path[0]);
        if path[0] == '/' {
            assert(front =~= "/"@);
        } else {
            assert("/"@[0] != front[0]);
        }
    }
}

/// A path is put under a folder with one slash between them; an absolute one stays as it is.
pub proof fn path_is_put_under_a_folder(root: Seq<char>, link: Seq<char>)
    requires
        link.len() > 0,
    ensures
        link[0] == '/' ==> under(root, link) == link,
        link[0] != '/' && root.len() == 0 ==> under(root, link) == link,
        link[0] != '/' && root.len() > 0 && root.last() == '/' ==> under(root, link) == root + link,
        link[0] != '/' && root.len() > 0 && root.last() != '/' ==> under(root, link) == root + "/"@ + link,
{
    absolute_starts_with_a_slash(link);
    assert(root.len() == 0 ==> root + link =~= link);
}

/// A path goes up at each `..`, names something at each other part that is not empty and not
/// `.`, and is absolute when it starts with a slash.
pub proof fn parts_of_a_path(path: Seq<char>, i: int)
    requires
        0 <= i < parts_of(path, '/').len(),
    ensures
        slash_link(path).text == path,
        slash_link(path).absolute <==> path.len() > 0 && path[0] == '/',
        slash_link(path).parts.len() == parts_of(path, '/').len(),
        slash_link(path).parts[i] == Part::Up <==> parts_of(path, '/')[i] == seq!['.', '.'],
        slash_link(path).parts[i] == Part::Name <==> parts_of(path, '/')[i].len() > 0 && parts_of(path, '/')[i]
            != seq!['.'] && parts_of(path, '/')[i] != seq!['.', '.'],
{
    reveal_strlit(".");
    reveal_strlit("..");
    assert("."@ =~= seq!['.']);
    assert(".."@ =~= seq!['.', '.']);
    absolute_starts_with_a_slash(path);
    assert(slash_link(path).parts[i] == part_of(parts_of(path, '/')[i]));
}

proof fn last_dot_is_last(s: Seq<char>)
    ensures
        match last_dot(s) {
            Some(i) => 0 <= i < s.len() && s[i] == '.' && forall|j: int| i < j < s.len() ==> s[j] != '.',
            None => forall|j: int| 0 <= j < s.len() ==> s[j] != '.',
        },
    decreases s.len(),
{
    if s.len() > 0 && s.last() != '.' {
        let t = s.drop_last();
        last_dot_is_last(t);
        let from = match last_dot(t) {
            Some(i) => i,
            None => -1,
        };
        assert forall|j: int| from < j < s.len() implies s[j] != '.' by {
            if j < t.len() {
                assert(t[j] == s[j]);
            }
        }
    }
}

/// The extension of a name is what stands behind its last dot, unless nothing stands before
/// that; the stem is the rest.
pub proof fn extension_is_behind_the_last_dot(stem: Seq<char>, ext: Seq<char>)
    requires
        stem.len() > 0,
        !ext.contains('.'),
    ensures
        extension_of(stem + "."@ + ext) == Some(ext),
        stem_of(stem + "."@ + ext) == stem,
        extension_of(ext) is None,
        stem_of(ext) == ext,
        extension_of("."@ + ext) is None,
        stem_of("."@ + ext) == "."@ + ext,
{
    reveal_strlit(".");
    let s = stem + "."@ + ext;
    last_dot_is_last(s);
    let n = stem.len() as int;
    assert(s[n] == '.');
    let i = last_dot(s)->0;
    if i > n {
        assert(s[i] == ext[i - n - 1]);
        assert(ext.contains(ext[i - n - 1]));
    }
    assert(i == n);
    assert(s.take(n) =~= stem);
    assert(s.skip(n + 1) =~= ext);
    last_dot_is_last(ext);
    if let Some(k) = last_dot(ext) {
        assert(ext.contains(ext[k]));
    }
    let t = "."@ + ext;
    last_dot_is_last(t);
    assert(t[0] == '.');
    let m = last_dot(t)->0;
    if m > 0 {
        assert(t[m] == ext[m - 1]);
        assert(ext.contains(ext[m - 1]));
    }
}

/// The last part of a path that has one is its name; empty parts and `.` at its end do not
/// count, and `..` is no name.
pub proof fn name_is_the_last_part(cs: Seq<Seq<char>>, c: Seq<char>, path: Seq<char>)
    requires
        parts_of(path, '/') == cs.push(c),
    ensures
        c.len() > 0 && c != "."@ && c != ".."@ ==> file_name_of(path) == Some(c),
        c == ".."@ ==> file_name_of(path) is None,
        c.len() == 0 || c == "."@ ==> file_name_of(path) == match last_component(cs) {
            Some(d) if d != ".."@ => Some(d),
            _ => None,
        },
{
    reveal_strlit(".");
    reveal_strlit("..");
    assert(cs.push(c).drop_last() =~= cs);
}

// ---------------------------------------------------------------- what is stale

/// A text on disk is up to date when it holds what it should, line ends aside; one that is
/// missing is not.
pub proof fn text_is_current_when_it_holds_what_it_should(disk: Option<Seq<char>>, want: Seq<char>)
    ensures
        current(disk, want) <==> (disk matches Some(d) && lf(d) == want),
        !want.contains('\r') ==> current(Some(want), want),
        current(None, want) == false,
{
    if !want.contains('\r') {
        line_ends_are_normalized(want, want);
    }
}

/// The text file of an id is an orphan exactly when the id is not in use, and either is on
/// the SPDX list or is a reference of one's own: other files are left alone.
pub proof fn orphan_text_is_known_and_unused(dir: Seq<char>, id: Seq<char>, used: Seq<Seq<char>>)
    requires
        id.len() > 0,
        !id.contains('/'),
    ensures
        stale_license(under(dir, id + ".txt"@), used) <==> !used.contains(id) && (spdx_license_text(id) is Some
            || spdx_exception_text(id) is Some || starts(id, "LicenseRef-"@)),
{
    entry_has_its_key(dir, id);
}

/// A NOTICE file is an orphan exactly when its name is not in use and reads as that of a
/// package: a version, without a pre-release or with one that has a digit, stands behind a
/// hyphen.
pub proof fn orphan_notice_is_of_a_package(dir: Seq<char>, key: Seq<char>, used: Seq<Seq<char>>)
    requires
        key.len() > 0,
        !key.contains('/'),
    ensures
        stale_notice(under(dir, key + ".txt"@), used) <==> !used.contains(key) && exists|i: int|
            0 <= i < key.len() && #[trigger] key[i] == '-' && (semver_pre(key.skip(i + 1)) matches Some(pre) && (pre.len()
                == 0 || exists|k: int| 0 <= k < pre.len() && '0' <= (#[trigger] pre[k]) && pre[k] <= '9')),
{
    entry_has_its_key(dir, key);
    if is_notice_stem(key) {
        let i = choose|i: int|
            0 <= i < key.len() && #[trigger] key[i] == '-' && marks_version(semver_pre(key.skip(i + 1)));
        let pre = semver_pre(key.skip(i + 1))->0;
        if pre.len() > 0 {
            let k = choose|k: int| 0 <= k < pre.len() && is_digit(#[trigger] pre[k]);
            assert('0' <= pre[k] && pre[k] <= '9');
        }
        assert(key[i] == '-');
    }
    if exists|i: int|
        0 <= i < key.len() && #[trigger] key[i] == '-' && (semver_pre(key.skip(i + 1)) matches Some(pre) && (pre.len()
            == 0 || exists|k: int| 0 <= k < pre.len() && '0' <= (#[trigger] pre[k]) && pre[k] <= '9')) {
        let i = choose|i: int|
            0 <= i < key.len() && #[trigger] key[i] == '-' && (semver_pre(key.skip(i + 1)) matches Some(pre) && (
            pre.len() == 0 || exists|k: int| 0 <= k < pre.len() && '0' <= (#[trigger] pre[k]) && pre[k] <= '9'));
        let pre = semver_pre(key.skip(i + 1))->0;
        if pre.len() > 0 {
            let k = choose|k: int| 0 <= k < pre.len() && '0' <= (#[trigger] pre[k]) && pre[k] <= '9';
            assert(is_digit(pre[k]));
        }
        assert(marks_version(semver_pre(key.skip(i + 1))));
        assert(key[i] == '-');
    }
}

/// A file with another extension than `txt`, or none, is no orphan.
pub proof fn other_files_are_left_alone(path: Seq<char>, name: Seq<char>, used: Seq<Seq<char>>)
    requires
        file_name_of(path) == Some(name),
        extension_of(name) != Some("txt"@),
    ensures
        !stale_license(path, used),
        !stale_notice(path, used),
{
}

proof fn filtered_in_two(a: Seq<Seq<char>>, b: Seq<Seq<char>>, keep: spec_fn(Seq<char>) -> bool)
    ensures
        (a + b).filter(keep) == a.filter(keep) + b.filter(keep),
    decreases b.len(),
{
    reveal(Seq::filter);
    if b.len() == 0 {
        assert(a + b =~= a);
        assert(a.filter(keep) + b.filter(keep) =~= a.filter(keep));
    } else {
        filtered_in_two(a, b.drop_last(), keep);
        assert((a + b).drop_last() =~= a + b.drop_last());
        assert((a + b).filter(keep) =~= a.filter(keep) + b.filter(keep));
    }
}

/// The orphans are the entries that are orphans, in order.
pub proof fn orphans_are_the_entries_that_are(a: Seq<Seq<char>>, b: Seq<Seq<char>>, path: Seq<char>, used: Seq<Seq<char>>)
    ensures
        license_orphans(a + b, used) == license_orphans(a, used) + license_orphans(b, used),
        license_orphans(seq![path], used) == if stale_license(path, used) {
            seq![path]
        } else {
            Seq::empty()
        },
        notice_orphans(a + b, used) == notice_orphans(a, used) + notice_orphans(b, used),
        notice_orphans(seq![path], used) == if stale_notice(path, used) {
            seq![path]
        } else {
            Seq::empty()
        },
{
    filtered_in_two(a, b, |p: Seq<char>| stale_license(p, used));
    filtered_in_two(a, b, |p: Seq<char>| stale_notice(p, used));
    reveal(Seq::filter);
    reveal_with_fuel(Seq::filter, 2);
    assert(seq![path].drop_last() =~= Seq::<Seq<char>>::empty());
    if stale_license(path, used) {
        assert(license_orphans(seq![path], used) =~= seq![path]);
    }
    if stale_notice(path, used) {
        assert(notice_orphans(seq![path], used) =~= seq![path]);
    }
}

/// A file drifted exactly when it is not up to date; those that did are listed by their
/// paths, in order.
pub proof fn drifted_files_are_listed(
    dir: Seq<char>,
    a: Seq<(Seq<char>, Seq<char>)>,
    b: Seq<(Seq<char>, Seq<char>)>,
    key: Seq<char>,
    text: Seq<char>,
    files: Seq<(Seq<char>, Seq<char>)>,
)
    ensures
        drifted(dir, a + b, files) == drifted(dir, a, files) + drifted(dir, b, files),
        drifted(dir, seq![(key, text)], files) == match at(files, under(dir, key + ".txt"@)) {
            Some(d) if lf(d) == text => Seq::empty(),
            _ => seq![under(dir, key + ".txt"@)],
        },
    decreases b.len(),
{
    if b.len() == 0 {
        assert(a + b =~= a);
        assert(drifted(dir, a, files) + drifted(dir, b, files) =~= drifted(dir, a, files));
    } else {
        drifted_files_are_listed(dir, a, b.drop_last(), key, text, files);
        assert((a + b).drop_last() =~= a + b.drop_last());
        assert(drifted(dir, a + b, files) =~= drifted(dir, a, files) + drifted(dir, b, files));
    }
    reveal_with_fuel(drifted, 2);
    assert(seq![(key, text)].drop_last() =~= Seq::<(Seq<char>, Seq<char>)>::empty());
    let path = entry_path(dir, key);
    if !current(at(files, path), text) {
        assert(drifted(dir, seq![(key, text)], files) =~= seq![path]);
    }
}

/// A document that drifted is named by its path, with the line where the difference begins
/// when there is something on disk.
pub proof fn drifted_document_is_named(path: Seq<char>, disk: Option<Seq<char>>, want: Seq<char>)
    ensures
        disk is None ==> drift(path, disk, want) == Some(path),
        disk matches Some(d) ==> {
            &&& lf(d) == want ==> drift(path, disk, want) is None
            &&& lf(d) != want ==> drift(path, disk, want) == Some(
                path + " (first difference at line "@ + decimal_of(common_lines(lines_of(lf(d)), lines_of(want)) + 1)
                    + ")"@,
            )
        },
{
}

/// What is out of date is told in this order: license texts, orphans among them, NOTICE
/// files, orphans among them, the manifest, the flat file; as far as they are written.
pub proof fn out_of_date_in_order(
    s: Settings,
    texts: Seq<(Seq<char>, Seq<char>)>,
    notices: Seq<(Seq<char>, Seq<char>)>,
    manifest: Option<Seq<char>>,
    flat: Option<Seq<char>>,
    d: DiskView,
)
    ensures
        out_of_date(s, texts, notices, manifest, flat, d) == (match manifest {
            Some(m) => drifted(s.licenses_dir@, texts, d.files) + license_orphans(
                match at(d.folders, s.licenses_dir@) {
                    Some(e) => e,
                    None => Seq::empty(),
                },
                keys_of(texts),
            ) + drifted(s.notices_dir@, notices, d.files) + notice_orphans(
                match at(d.folders, s.notices_dir@) {
                    Some(e) => e,
                    None => Seq::empty(),
                },
                keys_of(notices),
            ) + (match drift(s.manifest@, at(d.files, s.manifest@), m) {
                Some(t) => seq![t],
                None => Seq::empty(),
            }),
            None => Seq::empty(),
        }) + (match flat {
            Some(f) => match drift(s.flat_file@, at(d.files, s.flat_file@), f) {
                Some(t) => seq![t],
                None => Seq::empty(),
            },
            None => Seq::empty(),
        }),
{
}

/// A failed check names everything that is out of date.
pub proof fn failed_check_names_each(stale: Seq<Seq<char>>, i: int)
    requires
        0 <= i < stale.len(),
    ensures
        contains(stale_failure(stale), stale[i]),
        stale_failure(stale) == "out of date (run `cargo tribute`):\n  "@ + joined(stale, "\n  "@),
{
    let all = joined(stale, "\n  "@);
    let head = "out of date (run `cargo tribute`):\n  "@;
    joined_holds_each(stale, "\n  "@, i);
    between(head, all, Seq::empty());
    assert(head + all + Seq::<char>::empty() =~= stale_failure(stale));
    part_of_part(stale_failure(stale), all, stale[i]);
}

// ---------------------------------------------------------------- what is written

/// A folder is cleared of its orphans, then created and filled with every text under its
/// key; with nothing to fill it, it is removed.
pub proof fn license_folder_is_filled(dir: Seq<char>, texts: Seq<(Seq<char>, Seq<char>)>, entries: Seq<Seq<char>>)
    ensures
        ({
            let plan = license_plan(dir, texts, entries);
            let gone = license_orphans(entries, keys_of(texts));
            let n = gone.len() as int;
            &&& forall|i: int| 0 <= i < n ==> plan[i] == StepView::Remove(#[trigger] gone[i])
            &&& texts.len() == 0 ==> plan.len() == n + 1 && plan[n] == StepView::RemoveFolder(dir)
            &&& texts.len() > 0 ==> {
                &&& plan.len() == n + 1 + texts.len()
                &&& plan[n] == StepView::CreateFolder(dir)
                &&& forall|i: int|
                    0 <= i < texts.len() ==> plan[n + 1 + i] == StepView::Write(
                        under(dir, (#[trigger] texts[i]).0 + ".txt"@),
                        texts[i].1,
                    )
            }
        }),
{
}

/// So is the folder of the NOTICE files.
pub proof fn notice_folder_is_filled(dir: Seq<char>, notices: Seq<(Seq<char>, Seq<char>)>, entries: Seq<Seq<char>>)
    ensures
        ({
            let plan = notice_plan(dir, notices, entries);
            let gone = notice_orphans(entries, keys_of(notices));
            let n = gone.len() as int;
            &&& forall|i: int| 0 <= i < n ==> plan[i] == StepView::Remove(#[trigger] gone[i])
            &&& notices.len() == 0 ==> plan.len() == n + 1 && plan[n] == StepView::RemoveFolder(dir)
            &&& notices.len() > 0 ==> {
                &&& plan.len() == n + 1 + notices.len()
                &&& plan[n] == StepView::CreateFolder(dir)
                &&& forall|i: int|
                    0 <= i < notices.len() ==> plan[n + 1 + i] == StepView::Write(
                        under(dir, (#[trigger] notices[i]).0 + ".txt"@),
                        notices[i].1,
                    )
            }
        }),
{
}

/// A document is written to its place, whose folder is created; without a document nothing
/// is done.
pub proof fn document_is_written_to_its_place(path: Seq<char>, doc: Option<Seq<char>>)
    ensures
        doc matches Some(t) ==> {
            &&& document_plan(path, doc).len() == 2
            &&& document_plan(path, doc)[0] == StepView::CreateParent(path)
            &&& document_plan(path, doc)[1] == StepView::Write(path, t)
        },
        doc is None ==> document_plan(path, doc).len() == 0,
{
}

// ---------------------------------------------------------------- summaries

/// How many there are, behind a comma; nothing where there are none.
pub open spec fn if_any(n: usize, what: Seq<char>) -> Seq<char> {
    if n == 0 {
        Seq::empty()
    } else {
        ", "@ + decimal_of(n as nat) + what
    }
}

/// A check that finds nothing tells how many texts, notices, crates and extras there are;
/// notices and extras only where there are any.
pub proof fn check_tells_the_counts(c: Counts)
    ensures
        up_to_date(c) == "up to date: "@ + decimal_of(c.texts as nat) + " license texts"@ + if_any(
            c.notices,
            " notices"@,
        ) + ", "@ + decimal_of(c.crates as nat) + " crates"@ + if_any(c.extras, " extras"@),
{
}

/// A run tells what it wrote and where: the folders and the manifest, the flat file, or both.
pub proof fn run_tells_what_it_wrote(s: Settings, c: Counts)
    ensures
        ({
            let crates = " ("@ + decimal_of(c.crates as nat) + " crates"@ + if_any(c.extras, " extras"@) + ")"@;
            let folders = "wrote "@ + s.licenses_link@ + "/ ("@ + decimal_of(c.texts as nat) + " license texts)"@ + (
            if c.notices == 0 {
                Seq::empty()
            } else {
                ", "@ + s.notices_link@ + "/ ("@ + decimal_of(c.notices as nat) + " notices)"@
            }) + " and "@ + s.manifest_link@ + crates;
            &&& wrote(s, true, false, c) == folders
            &&& wrote(s, true, true, c) == folders + (" and "@ + s.flat_link@)
            &&& wrote(s, false, true, c) == "wrote "@ + s.flat_link@ + crates
        }),
{
    let a = " ("@;
    let b = decimal_of(c.crates as nat);
    let d = " crates"@;
    let e = if_any(c.extras, " extras"@);
    let f = ")"@;
    let head = "wrote "@ + s.licenses_link@ + "/ ("@ + decimal_of(c.texts as nat) + " license texts)"@ + (if c.notices
        == 0 {
        Seq::empty()
    } else {
        ", "@ + s.notices_link@ + "/ ("@ + decimal_of(c.notices as nat) + " notices)"@
    }) + " and "@ + s.manifest_link@;
    assert(head + a + b + d + e + f =~= head + (a + b + d + e + f));
    let flat = "wrote "@ + s.flat_link@;
    assert(flat + a + b + d + e + f =~= flat + (a + b + d + e + f));
    assert(head + (a + b + d + e + f) + Seq::<char>::empty() =~= head + (a + b + d + e + f));
}

} // verus!
