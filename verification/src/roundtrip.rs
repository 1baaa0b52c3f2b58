//! Writing and checking belong together: what a run writes, a check accepts.

use vstd::prelude::*;
use crate::config::{settings_of, Config, Settings};
use crate::harvest::lf;
use crate::paths::{absolute, under};
use crate::plan::{document_plan, fills, license_plan, notice_plan, out_of_date, removals, writes, StepView};
use crate::sets::{at, keys_of, sorted};
use crate::stale::{all_current, crlf_checkout_is_current, current, entries_of, entry_has_its_key, entry_path, license_orphans, notice_orphans, nothing_is_stale_when_all_is_current, stale_license, stale_notice, DiskView};
use crate::text::precedes_irreflexive;

verus! {

/// The files of a file system, each with its text.
pub type FileTree = Map<Seq<char>, Seq<char>>;

/// The files after a step.
pub open spec fn stepped(tree: FileTree, s: StepView) -> FileTree {
    match s {
        StepView::Remove(p) => tree.remove(p),
        StepView::Write(p, t) => tree.insert(p, t),
        _ => tree,
    }
}

/// The files after some steps.
pub open spec fn applied(tree: FileTree, steps: Seq<StepView>) -> FileTree
    decreases steps.len(),
{
    if steps.len() == 0 {
        tree
    } else {
        stepped(applied(tree, steps.drop_last()), steps.last())
    }
}

/// The files after the step for the licenses folder, of which a listing was made before.
pub open spec fn with_texts(
    tree: FileTree,
    s: Settings,
    texts: Seq<(Seq<char>, Seq<char>)>,
    in_licenses: Seq<Seq<char>>,
) -> FileTree {
    applied(tree, license_plan(s.licenses_dir@, texts, in_licenses))
}

/// The files after the step for the notices folder, of which a listing was made before.
pub open spec fn with_notices(
    tree: FileTree,
    s: Settings,
    notices: Seq<(Seq<char>, Seq<char>)>,
    in_notices: Seq<Seq<char>>,
) -> FileTree {
    applied(tree, notice_plan(s.notices_dir@, notices, in_notices))
}

/// The files after the documents were written.
pub open spec fn with_documents(
    tree: FileTree,
    s: Settings,
    manifest: Option<Seq<char>>,
    flat: Option<Seq<char>>,
) -> FileTree {
    applied(tree, document_plan(s.manifest@, manifest) + document_plan(s.flat_file@, flat))
}

/// The text of a file, if there is such a file.
pub open spec fn text_in(tree: FileTree, p: Seq<char>) -> Option<Seq<char>> {
    if tree.contains_key(p) {
        Some(tree[p])
    } else {
        None
    }
}

/// The path is that of an entry of a folder.
pub open spec fn stands_in(dir: Seq<char>, p: Seq<char>) -> bool {
    exists|name: Seq<char>| !name.contains('/') && p == #[trigger] under(dir, name)
}

/// The listing of a folder: all files that stand in it, and whatever else does.
pub open spec fn lists(entries: Seq<Seq<char>>, tree: FileTree, dir: Seq<char>) -> bool {
    &&& forall|p: Seq<char>| #[trigger]
        tree.contains_key(p) && stands_in(dir, p) ==> entries.contains(p)
    &&& forall|p: Seq<char>| #[trigger] entries.contains(p) ==> stands_in(dir, p)
}

/// The path is that of a file which a row is written to.
pub open spec fn is_row_path(dir: Seq<char>, rows: Seq<(Seq<char>, Seq<char>)>, p: Seq<char>) -> bool {
    exists|i: int| 0 <= i < rows.len() && p == entry_path(dir, (#[trigger] rows[i]).0)
}

/// The path is that of a file which a row is written to, below the folder.
pub open spec fn is_own(dir: Seq<char>, rows: Seq<(Seq<char>, Seq<char>)>, p: Seq<char>) -> bool {
    exists|i: int|
        0 <= i < rows.len() && p == entry_path(dir, (#[trigger] rows[i]).0) && !absolute(rows[i].0)
}

/// A row is written to the path, with the text.
pub open spec fn is_row(
    dir: Seq<char>,
    rows: Seq<(Seq<char>, Seq<char>)>,
    p: Seq<char>,
    t: Seq<char>,
) -> bool {
    exists|i: int|
        0 <= i < rows.len() && p == entry_path(dir, (#[trigger] rows[i]).0) && t == rows[i].1
}

/// A run writes the path, with the text: the manifest goes with the texts and notices,
/// the all-in-one file stands for itself.
pub open spec fn is_output(
    s: Settings,
    texts: Seq<(Seq<char>, Seq<char>)>,
    notices: Seq<(Seq<char>, Seq<char>)>,
    manifest: Option<Seq<char>>,
    flat: Option<Seq<char>>,
    p: Seq<char>,
    t: Seq<char>,
) -> bool {
    ||| manifest is Some && is_row(s.licenses_dir@, texts, p, t)
    ||| manifest is Some && is_row(s.notices_dir@, notices, p, t)
    ||| manifest == Some(t) && p == s.manifest@
    ||| flat == Some(t) && p == s.flat_file@
}

/// No path is written twice with texts that differ.
pub open spec fn no_clash(
    s: Settings,
    texts: Seq<(Seq<char>, Seq<char>)>,
    notices: Seq<(Seq<char>, Seq<char>)>,
    manifest: Option<Seq<char>>,
    flat: Option<Seq<char>>,
) -> bool {
    forall|p: Seq<char>, t: Seq<char>, u: Seq<char>|
        #![trigger is_output(s, texts, notices, manifest, flat, p, t), is_output(s, texts, notices, manifest, flat, p, u)]
        is_output(s, texts, notices, manifest, flat, p, t) && is_output(
            s,
            texts,
            notices,
            manifest,
            flat,
            p,
            u,
        ) ==> t == u
}

/// Nothing that a run writes into a folder reads as an orphan there. That holds of a file
/// which a row of the folder itself puts below it, so that it is asked of the others.
pub open spec fn none_is_an_orphan(
    s: Settings,
    texts: Seq<(Seq<char>, Seq<char>)>,
    notices: Seq<(Seq<char>, Seq<char>)>,
    manifest: Option<Seq<char>>,
    flat: Option<Seq<char>>,
) -> bool {
    forall|p: Seq<char>, t: Seq<char>| #[trigger]
        is_output(s, texts, notices, manifest, flat, p, t) ==> {
            &&& stands_in(s.licenses_dir@, p) && !is_own(s.licenses_dir@, texts, p)
                ==> !stale_license(p, keys_of(texts))
            &&& stands_in(s.notices_dir@, p) && !is_own(s.notices_dir@, notices, p)
                ==> !stale_notice(p, keys_of(notices))
        }
}

/// The keys of the rows are relative, so that their files stand below the folder.
pub open spec fn keys_are_relative(rows: Seq<(Seq<char>, Seq<char>)>) -> bool {
    forall|i: int| 0 <= i < rows.len() ==> !absolute((#[trigger] rows[i]).0)
}

/// The files ahead of a write, and the listings of the two folders, each made right before
/// the step for its folder.
pub struct Listed {
    pub tree: FileTree,
    pub in_licenses: Seq<Seq<char>>,
    pub in_notices: Seq<Seq<char>>,
}

/// The listings are those of the two folders.
pub open spec fn is_listed(
    s: Settings,
    texts: Seq<(Seq<char>, Seq<char>)>,
    before: Listed,
) -> bool {
    &&& lists(before.in_licenses, before.tree, s.licenses_dir@)
    &&& lists(
        before.in_notices,
        with_texts(before.tree, s, texts, before.in_licenses),
        s.notices_dir@,
    )
}

/// The files after a write.
pub open spec fn written(
    s: Settings,
    texts: Seq<(Seq<char>, Seq<char>)>,
    notices: Seq<(Seq<char>, Seq<char>)>,
    manifest: Seq<char>,
    flat: Option<Seq<char>>,
    before: Listed,
) -> FileTree {
    with_documents(
        with_notices(
            with_texts(before.tree, s, texts, before.in_licenses),
            s,
            notices,
            before.in_notices,
        ),
        s,
        Some(manifest),
        flat,
    )
}

/// What a check sees of the files: those of the output as they are, and in a folder only
/// files that stand there, or something else that is not named like an orphan.
pub open spec fn sees(
    s: Settings,
    texts: Seq<(Seq<char>, Seq<char>)>,
    notices: Seq<(Seq<char>, Seq<char>)>,
    manifest: Seq<char>,
    flat: Option<Seq<char>>,
    tree: FileTree,
    d: DiskView,
) -> bool {
    &&& forall|p: Seq<char>, t: Seq<char>| #[trigger]
        is_output(s, texts, notices, Some(manifest), flat, p, t) ==> at(d.files, p) == text_in(
            tree,
            p,
        )
    &&& forall|p: Seq<char>| #[trigger]
        entries_of(d, s.licenses_dir@).contains(p) ==> !stale_license(p, keys_of(texts)) || (
        tree.contains_key(p) && stands_in(s.licenses_dir@, p))
    &&& forall|p: Seq<char>| #[trigger]
        entries_of(d, s.notices_dir@).contains(p) ==> !stale_notice(p, keys_of(notices)) || (
        tree.contains_key(p) && stands_in(s.notices_dir@, p))
}

proof fn applied_in_two(tree: FileTree, a: Seq<StepView>, b: Seq<StepView>)
    ensures
        applied(tree, a + b) == applied(applied(tree, a), b),
    decreases b.len(),
{
    if b.len() == 0 {
        assert(a + b =~= a);
    } else {
        assert((a + b).drop_last() =~= a + b.drop_last());
        applied_in_two(tree, a, b.drop_last());
    }
}

proof fn removals_remove(tree: FileTree, paths: Seq<Seq<char>>)
    ensures
        forall|p: Seq<char>| #[trigger]
            applied(tree, removals(paths)).contains_key(p) <==> tree.contains_key(p)
                && !paths.contains(p),
        forall|p: Seq<char>| #[trigger]
            applied(tree, removals(paths)).contains_key(p) ==> applied(tree, removals(paths))[p]
                == tree[p],
    decreases paths.len(),
{
    let r = removals(paths);
    if paths.len() > 0 {
        let rest = paths.drop_last();
        removals_remove(tree, rest);
        assert(r.drop_last() =~= removals(rest));
        let before = applied(tree, removals(rest));
        assert(applied(tree, r) == before.remove(paths.last()));
        assert forall|p: Seq<char>| #[trigger]
            applied(tree, r).contains_key(p) == (tree.contains_key(p) && !paths.contains(p)) by {
            assert(before.contains_key(p) == (tree.contains_key(p) && !rest.contains(p)));
            if rest.contains(p) {
                let k = choose|k: int| 0 <= k < rest.len() && rest[k] == p;
                assert(paths[k] == p);
            }
            if paths.contains(p) && p != paths.last() {
                let k = choose|k: int| 0 <= k < paths.len() && paths[k] == p;
                assert(rest[k] == p);
            }
            if p == paths.last() {
                assert(paths[paths.len() - 1] == p);
            }
        }
        assert forall|p: Seq<char>| #[trigger] applied(tree, r).contains_key(p) implies applied(
            tree,
            r,
        )[p] == tree[p] by {
            assert(before.contains_key(p));
        }
    }
}

/// Writing rows writes each of their paths, with the text of a row for that path, and
/// touches no other file.
proof fn writes_write(tree: FileTree, dir: Seq<char>, rows: Seq<(Seq<char>, Seq<char>)>)
    ensures
        forall|p: Seq<char>| #[trigger]
            is_row_path(dir, rows, p) ==> {
                let t = applied(tree, writes(dir, rows));
                t.contains_key(p) && is_row(dir, rows, p, t[p])
            },
        forall|p: Seq<char>|
            !is_row_path(dir, rows, p) ==> #[trigger] text_in(applied(tree, writes(dir, rows)), p)
                == text_in(tree, p),
    decreases rows.len(),
{
    let w = writes(dir, rows);
    let t = applied(tree, w);
    if rows.len() > 0 {
        let rest = rows.drop_last();
        let last = rows.last();
        let lp = entry_path(dir, last.0);
        writes_write(tree, dir, rest);
        assert(w.drop_last() =~= writes(dir, rest));
        let before = applied(tree, writes(dir, rest));
        assert(w.last() == StepView::Write(lp, last.1));
        assert(t == before.insert(lp, last.1));
        assert(rows[rows.len() - 1] == last);
        assert forall|p: Seq<char>| #[trigger] is_row_path(dir, rows, p) implies t.contains_key(p)
            && is_row(dir, rows, p, t[p]) by {
            if p == lp {
                assert(is_row(dir, rows, p, last.1));
            } else {
                let k = choose|k: int|
                    0 <= k < rows.len() && p == entry_path(dir, (#[trigger] rows[k]).0);
                assert(rest[k] == rows[k]);
                assert(is_row_path(dir, rest, p));
                let m = choose|m: int|
                    0 <= m < rest.len() && p == entry_path(dir, (#[trigger] rest[m]).0) && before[p]
                        == rest[m].1;
                assert(rows[m] == rest[m]);
            }
        }
        assert forall|p: Seq<char>| !is_row_path(dir, rows, p) implies #[trigger] text_in(t, p)
            == text_in(tree, p) by {
            assert(p != lp);
            if is_row_path(dir, rest, p) {
                let k = choose|k: int|
                    0 <= k < rest.len() && p == entry_path(dir, (#[trigger] rest[k]).0);
                assert(rows[k] == rest[k]);
            }
            assert(text_in(before, p) == text_in(tree, p));
        }
    }
}

/// Filling a folder writes its rows and touches no other file.
proof fn fills_fill(tree: FileTree, dir: Seq<char>, rows: Seq<(Seq<char>, Seq<char>)>)
    ensures
        applied(tree, fills(dir, rows)) == applied(tree, writes(dir, rows)),
{
    reveal_with_fuel(applied, 2);
    if rows.len() == 0 {
        let f = fills(dir, rows);
        assert(f.drop_last() =~= Seq::<StepView>::empty());
        assert(applied(tree, f) == tree);
    } else {
        let one = seq![StepView::CreateFolder(dir)];
        applied_in_two(tree, one, writes(dir, rows));
        assert(one.drop_last() =~= Seq::<StepView>::empty());
        assert(applied(tree, one) == tree);
    }
}

/// Filling a folder after its orphans were removed: each path of a row holds the text of a
/// row for it, and any other file is as before or, if it is an orphan, gone.
proof fn folder_is_filled(
    tree: FileTree,
    dir: Seq<char>,
    rows: Seq<(Seq<char>, Seq<char>)>,
    orphans: Seq<Seq<char>>,
    after: FileTree,
)
    requires
        after == applied(tree, removals(orphans) + fills(dir, rows)),
    ensures
        forall|p: Seq<char>| #[trigger]
            is_row_path(dir, rows, p) ==> after.contains_key(p) && is_row(dir, rows, p, after[p]),
        forall|p: Seq<char>|
            !is_row_path(dir, rows, p) ==> #[trigger] text_in(after, p) == if orphans.contains(p) {
                None
            } else {
                text_in(tree, p)
            },
{
    let mid = applied(tree, removals(orphans));
    applied_in_two(tree, removals(orphans), fills(dir, rows));
    removals_remove(tree, orphans);
    fills_fill(mid, dir, rows);
    writes_write(mid, dir, rows);
    assert(after == applied(mid, writes(dir, rows)));
    assert forall|p: Seq<char>| !is_row_path(dir, rows, p) implies #[trigger] text_in(after, p)
        == (if orphans.contains(p) {
        None
    } else {
        text_in(tree, p)
    }) by {
        assert(text_in(after, p) == text_in(mid, p));
        assert(mid.contains_key(p) <==> tree.contains_key(p) && !orphans.contains(p));
    }
}

/// A file that a row is written to is no orphan of its folder.
proof fn row_is_no_orphan(dir: Seq<char>, rows: Seq<(Seq<char>, Seq<char>)>, p: Seq<char>)
    requires
        is_own(dir, rows, p),
        stands_in(dir, p),
    ensures
        !stale_license(p, keys_of(rows)),
        !stale_notice(p, keys_of(rows)),
{
    let k = choose|k: int|
        0 <= k < rows.len() && p == entry_path(dir, (#[trigger] rows[k]).0) && !absolute(rows[k].0);
    let key = rows[k].0;
    let name = choose|name: Seq<char>| !name.contains('/') && p == #[trigger] under(dir, name);
    let file = key + ".txt"@;
    reveal_strlit("/");
    reveal_strlit(".txt");
    if absolute(name) {
        assert(name.subrange(0, 1)[0] == name[0]);
    }
    if absolute(file) {
        assert(file.subrange(0, 1)[0] == file[0]);
        assert(key.subrange(0, 1) =~= "/"@);
    }
    assert(name =~= file) by {
        let n = p.len() - name.len();
        assert(p.skip(n) =~= name);
        assert(p.skip(n) =~= file);
    }
    if key.contains('/') {
        let c = choose|c: int| 0 <= c < key.len() && key[c] == '/';
        assert(name[c] == '/');
    }
    entry_has_its_key(dir, key);
    assert(keys_of(rows)[k] == key);
}

/// What a filter keeps was in the list, and is to be kept.
proof fn kept_by_filter(s: Seq<Seq<char>>, pred: spec_fn(Seq<char>) -> bool, p: Seq<char>)
    ensures
        s.filter(pred).contains(p) <==> s.contains(p) && pred(p),
    decreases s.len(),
{
    reveal(Seq::filter);
    if s.len() > 0 {
        let t = s.drop_last();
        kept_by_filter(t, pred, p);
        let f = t.filter(pred);
        let g = s.filter(pred);
        if t.contains(p) {
            let k = choose|k: int| 0 <= k < t.len() && t[k] == p;
            assert(s[k] == p);
        }
        if s.contains(p) && p != s.last() {
            let k = choose|k: int| 0 <= k < s.len() && s[k] == p;
            assert(t[k] == p);
        }
        if pred(s.last()) {
            assert(g == f.push(s.last()));
            if f.contains(p) {
                let k = choose|k: int| 0 <= k < f.len() && f[k] == p;
                assert(g[k] == p);
            }
            if g.contains(p) && p != s.last() {
                let k = choose|k: int| 0 <= k < g.len() && g[k] == p;
                assert(f[k] == p);
            }
            if p == s.last() {
                assert(g[g.len() - 1] == p);
                assert(s[s.len() - 1] == p);
            }
        } else {
            if p == s.last() {
                assert(s[s.len() - 1] == p);
            }
        }
    }
}

/// A document is written.
proof fn document_is_written(tree: FileTree, path: Seq<char>, doc: Option<Seq<char>>)
    ensures
        applied(tree, document_plan(path, doc)) == match doc {
            Some(t) => tree.insert(path, t),
            None => tree,
        },
{
    if let Some(t) = doc {
        reveal_with_fuel(applied, 3);
        let plan = document_plan(path, doc);
        assert(plan.drop_last() =~= seq![StepView::CreateParent(path)]);
        assert(plan.drop_last().drop_last() =~= Seq::<StepView>::empty());
    }
}

/// The files of a folder are as they should be exactly when each path of a row has the
/// text of its row.
proof fn rows_are_current(
    dir: Seq<char>,
    rows: Seq<(Seq<char>, Seq<char>)>,
    files: Seq<(Seq<char>, Seq<char>)>,
)
    ensures
        all_current(dir, rows, files) <==> forall|p: Seq<char>, t: Seq<char>| #[trigger]
            is_row(dir, rows, p, t) ==> current(at(files, p), t),
{
    if forall|p: Seq<char>, t: Seq<char>| #[trigger]
        is_row(dir, rows, p, t) ==> current(at(files, p), t) {
        assert forall|i: int| 0 <= i < rows.len() implies current(
            at(files, entry_path(dir, (#[trigger] rows[i]).0)),
            rows[i].1,
        ) by {
            assert(is_row(dir, rows, entry_path(dir, rows[i].0), rows[i].1));
        }
    }
}

/// A check passes exactly when each file of the output is on disk with its text, line-ending
/// style aside, and, unless the layout has no folders, no file that is no longer used sits
/// in them.
pub proof fn check_passes_exactly_when_all_is_current(
    s: Settings,
    texts: Seq<(Seq<char>, Seq<char>)>,
    notices: Seq<(Seq<char>, Seq<char>)>,
    manifest: Option<Seq<char>>,
    flat: Option<Seq<char>>,
    d: DiskView,
)
    ensures
        out_of_date(s, texts, notices, manifest, flat, d).len() == 0 <==> {
            &&& forall|p: Seq<char>, t: Seq<char>| #[trigger]
                is_output(s, texts, notices, manifest, flat, p, t) ==> current(at(d.files, p), t)
            &&& manifest is Some ==> forall|p: Seq<char>| #[trigger]
                entries_of(d, s.licenses_dir@).contains(p) ==> !stale_license(p, keys_of(texts))
            &&& manifest is Some ==> forall|p: Seq<char>| #[trigger]
                entries_of(d, s.notices_dir@).contains(p) ==> !stale_notice(p, keys_of(notices))
        },
{
    let ld = s.licenses_dir@;
    let nd = s.notices_dir@;
    let lk = keys_of(texts);
    let nk = keys_of(notices);
    let le = entries_of(d, ld);
    let ne = entries_of(d, nd);
    let output_current = forall|p: Seq<char>, t: Seq<char>| #[trigger]
        is_output(s, texts, notices, manifest, flat, p, t) ==> current(at(d.files, p), t);
    if let Some(m) = manifest {
        nothing_is_stale_when_all_is_current(ld, texts, nd, notices, s.manifest@, m, d);
        rows_are_current(ld, texts, d.files);
        rows_are_current(nd, notices, d.files);
        assert((forall|p: Seq<char>| #[trigger] le.contains(p) ==> !stale_license(p, lk))
            <==> forall|i: int| 0 <= i < le.len() ==> !stale_license(#[trigger] le[i], lk)) by {
            assert forall|i: int| 0 <= i < le.len() implies le.contains(#[trigger] le[i]) by {}
        }
        assert((forall|p: Seq<char>| #[trigger] ne.contains(p) ==> !stale_notice(p, nk))
            <==> forall|i: int| 0 <= i < ne.len() ==> !stale_notice(#[trigger] ne[i], nk)) by {
            assert forall|i: int| 0 <= i < ne.len() implies ne.contains(#[trigger] ne[i]) by {}
        }
        if output_current {
            assert(is_output(s, texts, notices, manifest, flat, s.manifest@, m));
            assert forall|p: Seq<char>, t: Seq<char>| #[trigger]
                is_row(ld, texts, p, t) implies current(at(d.files, p), t) by {
                assert(is_output(s, texts, notices, manifest, flat, p, t));
            }
            assert forall|p: Seq<char>, t: Seq<char>| #[trigger]
                is_row(nd, notices, p, t) implies current(at(d.files, p), t) by {
                assert(is_output(s, texts, notices, manifest, flat, p, t));
            }
        }
    }
    if let Some(doc) = flat {
        if output_current {
            assert(is_output(s, texts, notices, manifest, flat, s.flat_file@, doc));
        }
    }
}

/// A check fails once a file of the output is gone or has another text.
pub proof fn check_fails_after_a_change(
    s: Settings,
    texts: Seq<(Seq<char>, Seq<char>)>,
    notices: Seq<(Seq<char>, Seq<char>)>,
    manifest: Option<Seq<char>>,
    flat: Option<Seq<char>>,
    d: DiskView,
    p: Seq<char>,
    t: Seq<char>,
)
    requires
        is_output(s, texts, notices, manifest, flat, p, t),
        !current(at(d.files, p), t),
    ensures
        out_of_date(s, texts, notices, manifest, flat, d).len() > 0,
{
    check_passes_exactly_when_all_is_current(s, texts, notices, manifest, flat, d);
}

/// A check passes right after a write, whatever was on disk before: once the steps for the
/// two folders and the documents are carried out, every file of the output has its text,
/// and nothing is out of date. So a write also repairs whatever was changed.
///
/// Files may be anywhere, those that were added by hand and those that are no texts among
/// them, and the folders and documents may stand in each other, or be one. What is to be
/// written must be consistent in itself: no path with two texts, nothing that one part
/// writes and another takes for an orphan, texts with normalized line ends. The check sees
/// the files of the output as they are; what it finds listed in a folder is a file, or
/// something else that is not named like an orphan.
pub proof fn check_passes_after_a_write(
    s: Settings,
    texts: Seq<(Seq<char>, Seq<char>)>,
    notices: Seq<(Seq<char>, Seq<char>)>,
    manifest: Seq<char>,
    flat: Option<Seq<char>>,
    before: Listed,
    d: DiskView,
)
    requires
        no_clash(s, texts, notices, Some(manifest), flat),
        none_is_an_orphan(s, texts, notices, Some(manifest), flat),
        forall|p: Seq<char>, t: Seq<char>| #[trigger]
            is_output(s, texts, notices, Some(manifest), flat, p, t) ==> lf(t) == t,
        is_listed(s, texts, before),
        sees(s, texts, notices, manifest, flat, written(s, texts, notices, manifest, flat, before), d),
    ensures
        forall|p: Seq<char>, t: Seq<char>| #[trigger]
            is_output(s, texts, notices, Some(manifest), flat, p, t) ==> text_in(
                written(s, texts, notices, manifest, flat, before),
                p,
            ) == Some(t),
        out_of_date(s, texts, notices, Some(manifest), flat, d).len() == 0,
{
    let tree = before.tree;
    let in_licenses = before.in_licenses;
    let in_notices = before.in_notices;
    let end = written(s, texts, notices, manifest, flat, before);
    let ld = s.licenses_dir@;
    let nd = s.notices_dir@;
    let lk = keys_of(texts);
    let nk = keys_of(notices);
    let doc = Some(manifest);
    let one = with_texts(tree, s, texts, in_licenses);
    let two = with_notices(one, s, notices, in_notices);
    let three = applied(two, document_plan(s.manifest@, doc));
    let lo = license_orphans(in_licenses, lk);
    let no = notice_orphans(in_notices, nk);
    folder_is_filled(tree, ld, texts, lo, one);
    folder_is_filled(one, nd, notices, no, two);
    document_is_written(two, s.manifest@, doc);
    document_is_written(three, s.flat_file@, flat);
    applied_in_two(two, document_plan(s.manifest@, doc), document_plan(s.flat_file@, flat));
    assert(is_output(s, texts, notices, doc, flat, s.manifest@, manifest));
    if let Some(f) = flat {
        assert(is_output(s, texts, notices, doc, flat, s.flat_file@, f));
    }
    assert forall|p: Seq<char>| #[trigger] lo.contains(p) == (in_licenses.contains(p)
        && stale_license(p, lk)) by {
        kept_by_filter(in_licenses, |p: Seq<char>| stale_license(p, lk), p);
    }
    assert forall|p: Seq<char>| #[trigger] no.contains(p) == (in_notices.contains(p)
        && stale_notice(p, nk)) by {
        kept_by_filter(in_notices, |p: Seq<char>| stale_notice(p, nk), p);
    }
    // each file of the output has its text
    assert forall|p: Seq<char>, t: Seq<char>| #[trigger]
        is_output(s, texts, notices, doc, flat, p, t) implies text_in(end, p) == Some(t) by {
        if is_row_path(nd, notices, p) {
            assert(is_row(nd, notices, p, two[p]));
            assert(is_output(s, texts, notices, doc, flat, p, two[p]));
            assert(text_in(two, p) == Some(t));
        } else if is_row(ld, texts, p, t) {
            let k = choose|k: int|
                0 <= k < texts.len() && p == entry_path(ld, (#[trigger] texts[k]).0) && t
                    == texts[k].1;
            assert(is_row_path(ld, texts, p));
            assert(is_row(ld, texts, p, one[p]));
            assert(is_output(s, texts, notices, doc, flat, p, one[p]));
            if is_own(nd, notices, p) {
                let m = choose|m: int|
                    0 <= m < notices.len() && p == entry_path(nd, (#[trigger] notices[m]).0)
                        && !absolute(notices[m].0);
                assert(is_row_path(nd, notices, p));
            }
            assert(!no.contains(p));
            assert(text_in(two, p) == text_in(one, p));
            assert(text_in(two, p) == Some(t));
        } else if is_row(nd, notices, p, t) {
            let k = choose|k: int|
                0 <= k < notices.len() && p == entry_path(nd, (#[trigger] notices[k]).0) && t
                    == notices[k].1;
            assert(is_row_path(nd, notices, p));
        }
    }
    // no file in the licenses folder is an orphan
    assert forall|p: Seq<char>| #[trigger] end.contains_key(p) && stands_in(
        ld,
        p,
    ) implies !stale_license(p, lk) by {
        if is_own(ld, texts, p) {
            row_is_no_orphan(ld, texts, p);
        } else if is_row_path(nd, notices, p) {
            assert(is_row(nd, notices, p, two[p]));
            assert(is_output(s, texts, notices, doc, flat, p, two[p]));
        } else if is_row_path(ld, texts, p) {
            assert(is_row(ld, texts, p, one[p]));
            assert(is_output(s, texts, notices, doc, flat, p, one[p]));
        } else if p != s.manifest@ && !(flat is Some && p == s.flat_file@) {
            assert(two.contains_key(p));
            assert(text_in(two, p) is Some);
            assert(text_in(one, p) is Some);
            assert(tree.contains_key(p) && !lo.contains(p));
        }
    }
    // no file in the notices folder is an orphan
    assert forall|p: Seq<char>| #[trigger] end.contains_key(p) && stands_in(
        nd,
        p,
    ) implies !stale_notice(p, nk) by {
        if is_own(nd, notices, p) {
            row_is_no_orphan(nd, notices, p);
        } else if is_row_path(nd, notices, p) {
            assert(is_row(nd, notices, p, two[p]));
            assert(is_output(s, texts, notices, doc, flat, p, two[p]));
        } else if p != s.manifest@ && !(flat is Some && p == s.flat_file@) {
            assert(two.contains_key(p));
            assert(text_in(two, p) is Some);
            assert(one.contains_key(p) && !no.contains(p));
        }
    }
    check_passes_exactly_when_all_is_current(s, texts, notices, doc, flat, d);
}

/// A root with a `/` behind it, unless it is empty.
spec fn base(root: Seq<char>) -> Seq<char> {
    if root.len() == 0 || root.last() == '/' {
        root
    } else {
        root + "/"@
    }
}

/// What stands in a folder of a project starts, behind the root, as the folder does.
proof fn starts_as_its_folder(root: Seq<char>, folder: Seq<char>, name: Seq<char>)
    requires
        folder.len() > 0 && !absolute(folder),
        !absolute(name),
    ensures
        under(root, folder).len() > base(root).len(),
        under(root, folder)[base(root).len() as int] == folder[0],
        under(under(root, folder), name).len() > base(root).len(),
        under(under(root, folder), name)[base(root).len() as int] == folder[0],
{
    reveal_strlit("/");
    let n = base(root).len() as int;
    let dir = under(root, folder);
    assert(dir =~= base(root) + folder);
    assert(dir[n] == folder[0]);
    assert(under(dir, name)[n] == dir[n]);
}

/// A name without a `/` is relative.
proof fn name_is_relative(name: Seq<char>)
    requires
        !name.contains('/'),
    ensures
        !absolute(name),
{
    reveal_strlit("/");
    if absolute(name) {
        assert(name.subrange(0, 1)[0] == name[0]);
    }
}

/// With relative keys, no two rows of a folder are written to the same path.
proof fn rows_are_apart(dir: Seq<char>, rows: Seq<(Seq<char>, Seq<char>)>)
    requires
        sorted(keys_of(rows)),
        keys_are_relative(rows),
    ensures
        forall|p: Seq<char>, t: Seq<char>, u: Seq<char>|
            #![trigger is_row(dir, rows, p, t), is_row(dir, rows, p, u)]
            is_row(dir, rows, p, t) && is_row(dir, rows, p, u) ==> t == u,
{
    reveal_strlit(".txt");
    assert forall|p: Seq<char>, t: Seq<char>, u: Seq<char>|
        #![trigger is_row(dir, rows, p, t), is_row(dir, rows, p, u)]
        is_row(dir, rows, p, t) && is_row(dir, rows, p, u) implies t == u by {
        let i = choose|i: int|
            0 <= i < rows.len() && p == entry_path(dir, (#[trigger] rows[i]).0) && t == rows[i].1;
        let j = choose|j: int|
            0 <= j < rows.len() && p == entry_path(dir, (#[trigger] rows[j]).0) && u == rows[j].1;
        let x = rows[i].0;
        let y = rows[j].0;
        relative_with_ending(x);
        relative_with_ending(y);
        let n = p.len() - x.len() - 4;
        assert(p.skip(n) =~= x + ".txt"@);
        assert(p.skip(n) =~= y + ".txt"@);
        assert(x =~= (x + ".txt"@).take(x.len() as int));
        assert(y =~= (y + ".txt"@).take(y.len() as int));
        assert(keys_of(rows)[i] == x && keys_of(rows)[j] == y);
        precedes_irreflexive(x);
        assert(i == j);
    }
}

/// A relative key stays relative with `.txt` behind it.
proof fn relative_with_ending(key: Seq<char>)
    requires
        !absolute(key),
    ensures
        !absolute(key + ".txt"@),
{
    reveal_strlit("/");
    reveal_strlit(".txt");
    let file = key + ".txt"@;
    if absolute(file) {
        assert(file.subrange(0, 1)[0] == file[0]);
        assert(key.subrange(0, 1) =~= "/"@);
    }
}

/// The settings leave the output where it is by default.
pub open spec fn at_default_paths(s: Settings, root: Seq<char>) -> bool {
    &&& s.manifest@ == under(root, "THIRD-PARTY.md"@)
    &&& s.flat_file@ == under(root, "THIRD-PARTY-NOTICES"@)
    &&& s.licenses_dir@ == under(root, "LICENSES"@)
    &&& s.notices_dir@ == under(root, "NOTICES"@)
}

/// A configuration that gives no paths leaves the output at the default ones.
pub proof fn unset_paths_are_the_default(s: Settings, root: Seq<char>, c: Config)
    requires
        settings_of(s, root, c),
        c.manifest is None && c.flat_file is None,
        c.licenses_dir is None && c.notices_dir is None,
    ensures
        at_default_paths(s, root),
{
}

/// At the default paths, output under relative keys is always consistent in itself.
pub proof fn default_output_is_consistent(
    s: Settings,
    root: Seq<char>,
    texts: Seq<(Seq<char>, Seq<char>)>,
    notices: Seq<(Seq<char>, Seq<char>)>,
    manifest: Option<Seq<char>>,
    flat: Option<Seq<char>>,
)
    requires
        at_default_paths(s, root),
        sorted(keys_of(texts)) && keys_are_relative(texts),
        sorted(keys_of(notices)) && keys_are_relative(notices),
    ensures
        no_clash(s, texts, notices, manifest, flat),
        none_is_an_orphan(s, texts, notices, manifest, flat),
{
    let ld = s.licenses_dir@;
    let nd = s.notices_dir@;
    let n = base(root).len() as int;
    reveal_strlit("/");
    reveal_strlit("LICENSES");
    reveal_strlit("NOTICES");
    reveal_strlit("THIRD-PARTY.md");
    reveal_strlit("THIRD-PARTY-NOTICES");
    name_is_relative("LICENSES"@);
    name_is_relative("NOTICES"@);
    name_is_relative("THIRD-PARTY.md"@);
    name_is_relative("THIRD-PARTY-NOTICES"@);
    name_is_relative(Seq::empty());
    starts_as_its_folder(root, "THIRD-PARTY.md"@, Seq::empty());
    starts_as_its_folder(root, "THIRD-PARTY-NOTICES"@, Seq::empty());
    assert(s.manifest@[n] == 'T' && s.flat_file@[n] == 'T');
    assert(s.manifest@.len() != s.flat_file@.len());
    rows_are_apart(ld, texts);
    rows_are_apart(nd, notices);
    assert forall|p: Seq<char>| #[trigger] stands_in(ld, p) implies p[n] == 'L' by {
        let name = choose|name: Seq<char>| !name.contains('/') && p == #[trigger] under(ld, name);
        name_is_relative(name);
        starts_as_its_folder(root, "LICENSES"@, name);
    }
    assert forall|p: Seq<char>| #[trigger] stands_in(nd, p) implies p[n] == 'N' by {
        let name = choose|name: Seq<char>| !name.contains('/') && p == #[trigger] under(nd, name);
        name_is_relative(name);
        starts_as_its_folder(root, "NOTICES"@, name);
    }
    assert forall|p: Seq<char>, t: Seq<char>| #[trigger] is_row(ld, texts, p, t) implies p[n] == 'L'
        && is_own(ld, texts, p) by {
        let k = choose|k: int|
            0 <= k < texts.len() && p == entry_path(ld, (#[trigger] texts[k]).0) && t == texts[k].1;
        relative_with_ending(texts[k].0);
        starts_as_its_folder(root, "LICENSES"@, texts[k].0 + ".txt"@);
    }
    assert forall|p: Seq<char>, t: Seq<char>| #[trigger]
        is_row(nd, notices, p, t) implies p[n] == 'N' && is_own(nd, notices, p) by {
        let k = choose|k: int|
            0 <= k < notices.len() && p == entry_path(nd, (#[trigger] notices[k]).0) && t
                == notices[k].1;
        relative_with_ending(notices[k].0);
        starts_as_its_folder(root, "NOTICES"@, notices[k].0 + ".txt"@);
    }
}

/// A text without carriage returns has its line ends normalized.
proof fn plain_text_is_normalized(t: Seq<char>)
    requires
        !t.contains('\r'),
    ensures
        lf(t) == t,
{
    crlf_checkout_is_current(t);
}

/// At the default paths, with texts that hold no carriage return: a check passes right after
/// a write, fails once a file of the output has another text or is gone, and passes again
/// after a further write, which restores that file. `before` and `changed` are the files
/// ahead of the two writes, `seen`, `spoilt` and `again` what the three checks see.
pub proof fn write_check_change_rewrite(
    s: Settings,
    root: Seq<char>,
    texts: Seq<(Seq<char>, Seq<char>)>,
    notices: Seq<(Seq<char>, Seq<char>)>,
    manifest: Seq<char>,
    flat: Option<Seq<char>>,
    before: Listed,
    seen: DiskView,
    p: Seq<char>,
    t: Seq<char>,
    spoilt: DiskView,
    changed: Listed,
    again: DiskView,
)
    requires
        at_default_paths(s, root),
        sorted(keys_of(texts)) && keys_are_relative(texts),
        sorted(keys_of(notices)) && keys_are_relative(notices),
        forall|q: Seq<char>, u: Seq<char>| #[trigger]
            is_output(s, texts, notices, Some(manifest), flat, q, u) ==> !u.contains('\r'),
        is_listed(s, texts, before),
        sees(s, texts, notices, manifest, flat, written(s, texts, notices, manifest, flat, before), seen),
        is_output(s, texts, notices, Some(manifest), flat, p, t),
        !current(at(spoilt.files, p), t),
        is_listed(s, texts, changed),
        sees(
            s,
            texts,
            notices,
            manifest,
            flat,
            written(s, texts, notices, manifest, flat, changed),
            again,
        ),
    ensures
        out_of_date(s, texts, notices, Some(manifest), flat, seen).len() == 0,
        out_of_date(s, texts, notices, Some(manifest), flat, spoilt).len() > 0,
        text_in(written(s, texts, notices, manifest, flat, changed), p) == Some(t),
        out_of_date(s, texts, notices, Some(manifest), flat, again).len() == 0,
{
    let doc = Some(manifest);
    default_output_is_consistent(s, root, texts, notices, doc, flat);
    assert forall|q: Seq<char>, u: Seq<char>| #[trigger]
        is_output(s, texts, notices, doc, flat, q, u) implies lf(u) == u by {
        plain_text_is_normalized(u);
    }
    check_passes_after_a_write(s, texts, notices, manifest, flat, before, seen);
    check_fails_after_a_change(s, texts, notices, doc, flat, spoilt, p, t);
    check_passes_after_a_write(s, texts, notices, manifest, flat, changed, again);
}

/// In the flat layout the one document is the whole output: a check passes right after it
/// was written, whatever was on disk before, and whatever is in the folders.
pub proof fn check_passes_after_a_flat_write(
    s: Settings,
    texts: Seq<(Seq<char>, Seq<char>)>,
    notices: Seq<(Seq<char>, Seq<char>)>,
    flat: Seq<char>,
    tree: FileTree,
    d: DiskView,
)
    requires
        lf(flat) == flat,
        at(d.files, s.flat_file@) == text_in(
            with_documents(tree, s, None, Some(flat)),
            s.flat_file@,
        ),
    ensures
        text_in(with_documents(tree, s, None, Some(flat)), s.flat_file@) == Some(flat),
        out_of_date(s, texts, notices, None, Some(flat), d).len() == 0,
{
    let none = document_plan(s.manifest@, None);
    document_is_written(tree, s.manifest@, None);
    document_is_written(tree, s.flat_file@, Some(flat));
    applied_in_two(tree, none, document_plan(s.flat_file@, Some(flat)));
    assert(current(at(d.files, s.flat_file@), flat));
}

} // verus!
