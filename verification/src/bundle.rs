//! The license texts and NOTICE bodies that ship with the attribution.

use vstd::prelude::*;
use vstd::string::*;
use crate::graph::{Package, PackageView};
use crate::harvest::{extras_of, harvest_extras, lf, scans, to_lf, Extras, ExtrasView, SourceFile, SourceFileView};
use crate::policy::{canonical_text, corpus_text};
use crate::scan::{behind_is_contained, contained_stays, contains};
use crate::sets::{at, rows_are_table, table_of, Table};
use crate::text::{cat3, owned, same};

verus! {

// ---------------------------------------------------------------- what packages ship

/// A package with the files at its root.
pub type Shipped<'a> = (&'a Package, Vec<SourceFile>);

/// What the files of a package add to its attribution.
pub open spec fn shipped_extras(e: (PackageView, Seq<SourceFileView>)) -> ExtrasView {
    extras_of(e.0.authors, scans(e.1))
}

/// What the files of the package with an id add to its attribution.
pub open spec fn extras_at(list: Seq<(PackageView, Seq<SourceFileView>)>, id: Seq<char>) -> Option<
    ExtrasView,
>
    decreases list.len(),
{
    if list.len() == 0 {
        None
    } else if list.last().0.id == id {
        Some(shipped_extras(list.last()))
    } else {
        extras_at(list.drop_last(), id)
    }
}

/// The name under which the NOTICE of a package ships.
pub open spec fn notice_key(p: PackageView) -> Seq<char> {
    p.name + "-"@ + p.version
}

/// A NOTICE body behind another; the same body is not repeated.
pub open spec fn merged(first: Option<Seq<char>>, more: Seq<char>) -> Seq<char> {
    match first {
        None => more,
        Some(b) => if b == more {
            b
        } else {
            b + "\n"@ + more
        },
    }
}

/// The NOTICE body that ships under a name. Two packages can share one (a release and a
/// fork of it); both bodies are kept then.
pub open spec fn notice_at(list: Seq<(PackageView, Seq<SourceFileView>)>, key: Seq<char>) -> Option<
    Seq<char>,
>
    decreases list.len(),
{
    if list.len() == 0 {
        None
    } else {
        let rest = notice_at(list.drop_last(), key);
        match shipped_extras(list.last()).notice {
            Some(n) => if notice_key(list.last().0) == key {
                Some(merged(rest, n))
            } else {
                rest
            },
            None => rest,
        }
    }
}

/// What the files of packages add, by package id.
pub open spec fn extras_rows(list: Seq<(PackageView, Seq<SourceFileView>)>) -> Seq<
    (Seq<char>, ExtrasView),
> {
    table_of(|id: Seq<char>| extras_at(list, id))
}

/// The NOTICE bodies that ship, by name.
pub open spec fn notice_rows(list: Seq<(PackageView, Seq<SourceFileView>)>) -> Seq<
    (Seq<char>, Seq<char>),
> {
    table_of(|key: Seq<char>| notice_at(list, key))
}

/// Adds a NOTICE body under a name; behind one that is there already, unless they are the
/// same.
pub fn merge_notice(notices: &mut Table<String>, key: &str, body: &str)
    requires
        old(notices).wf(),
    ensures
        final(notices).wf(),
        forall|k: Seq<char>| #[trigger]
            at(final(notices).deep_view(), k) == if k == key@ {
                Some(merged(at(old(notices).deep_view(), key@), body@))
            } else {
                at(old(notices).deep_view(), k)
            },
{
    let text = match notices.get(key) {
        None => owned(body),
        Some(b) => if same(b.as_str(), body) {
            owned(body)
        } else {
            cat3(b.as_str(), "\n", body)
        },
    };
    notices.put(key, text);
}

/// What packages ship: copyright statements and authors by package id, and NOTICE bodies
/// by name and version.
pub fn gather<'a>(list: &Vec<Shipped<'a>>) -> (r: (Table<Extras>, Table<String>))
    ensures
        r.0.deep_view() == extras_rows(list.deep_view()),
        r.1.deep_view() == notice_rows(list.deep_view()),
        r.0.wf(),
        r.1.wf(),
        forall|id: Seq<char>| #[trigger]
            at(r.0.deep_view(), id) == extras_at(list.deep_view(), id),
        forall|k: Seq<char>| #[trigger] at(r.1.deep_view(), k) == notice_at(list.deep_view(), k),
{
    let ghost all = list.deep_view();
    let mut extras: Table<Extras> = Table::new();
    let mut notices: Table<String> = Table::new();
    let mut i: usize = 0;
    while i < list.len()
        invariant
            all == list.deep_view(),
            i <= list@.len(),
            extras.wf(),
            notices.wf(),
            forall|id: Seq<char>| #[trigger]
                at(extras.deep_view(), id) == extras_at(all.take(i as int), id),
            forall|k: Seq<char>| #[trigger]
                at(notices.deep_view(), k) == notice_at(all.take(i as int), k),
        decreases list.len() - i,
    {
        let p = list[i].0;
        let ghost upto = all.take(i + 1);
        let ghost eo = extras.deep_view();
        let ghost no = notices.deep_view();
        assert(upto.drop_last() =~= all.take(i as int));
        assert(upto.last() == list@[i as int].deep_view());
        let x = harvest_extras(&p.authors, &list[i].1);
        let ghost xv = x.deep_view();
        assert(xv == shipped_extras(upto.last()));
        if let Some(n) = &x.notice {
            let key = cat3(p.name.as_str(), "-", p.version.as_str());
            merge_notice(&mut notices, key.as_str(), n.as_str());
        }
        assert forall|k: Seq<char>| #[trigger] at(notices.deep_view(), k) == notice_at(upto, k) by {
            assert(at(no, k) == notice_at(all.take(i as int), k));
        }
        extras.put(p.id.as_str(), x);
        assert forall|id: Seq<char>| #[trigger] at(extras.deep_view(), id) == extras_at(upto, id) by {
            assert(at(eo, id) == extras_at(all.take(i as int), id));
        }
        i += 1;
    }
    assert(all.take(i as int) =~= all);
    proof {
        rows_are_table(extras.deep_view(), |id: Seq<char>| extras_at(all, id));
        rows_are_table(notices.deep_view(), |key: Seq<char>| notice_at(all, key));
    }
    (extras, notices)
}

// ---------------------------------------------------------------- license texts

/// A local text for a license id: where it stands, and what reading it gave.
pub struct LocalText {
    pub id: String,
    pub path: String,
    pub content: Result<String, String>,
}

/// The message for the first local text that could not be read.
pub open spec fn unread(list: Seq<LocalText>) -> Option<Seq<char>>
    decreases list.len(),
{
    if list.len() == 0 {
        None
    } else {
        match list[0].content {
            Err(e) => Some(list[0].path@ + ": "@ + e@),
            Ok(_) => unread(list.drop_first()),
        }
    }
}

/// The local text for an id, its line ends normalized.
pub open spec fn local_at(list: Seq<LocalText>, id: Seq<char>) -> Option<Seq<char>>
    decreases list.len(),
{
    if list.len() == 0 {
        None
    } else if list.last().id@ == id {
        match list.last().content {
            Ok(t) => Some(lf(t@)),
            Err(_) => None,
        }
    } else {
        local_at(list.drop_last(), id)
    }
}

/// The local texts by id.
pub open spec fn local_rows(list: Seq<LocalText>) -> Seq<(Seq<char>, Seq<char>)> {
    table_of(|id: Seq<char>| local_at(list, id))
}

/// The local texts by id, their line ends normalized, so that a file with carriage returns
/// does not read as out of date.
pub fn custom_texts(list: &Vec<LocalText>) -> (r: Result<Table<String>, String>)
    ensures
        match r {
            Ok(t) => {
                &&& unread(list@) is None
                &&& t.deep_view() == local_rows(list@)
                &&& t.wf()
                &&& forall|id: Seq<char>| #[trigger] at(t.deep_view(), id) == local_at(list@, id)
            },
            Err(e) => unread(list@) == Some(e@),
        },
{
    let mut t: Table<String> = Table::new();
    let mut i: usize = 0;
    assert(list@.skip(0) =~= list@);
    while i < list.len()
        invariant
            i <= list@.len(),
            t.wf(),
            unread(list@) == unread(list@.skip(i as int)),
            forall|id: Seq<char>| #[trigger]
                at(t.deep_view(), id) == local_at(list@.take(i as int), id),
        decreases list.len() - i,
    {
        let ghost rest = list@.skip(i as int);
        let ghost upto = list@.take(i + 1);
        let ghost o = t.deep_view();
        assert(rest[0] == list@[i as int]);
        assert(rest.drop_first() =~= list@.skip(i + 1));
        assert(upto.drop_last() =~= list@.take(i as int));
        assert(upto.last() == list@[i as int]);
        match &list[i].content {
            Err(e) => return Err(cat3(list[i].path.as_str(), ": ", e.as_str())),
            Ok(s) => {
                t.put(list[i].id.as_str(), to_lf(s.as_str()));
                assert forall|id: Seq<char>| #[trigger]
                    at(t.deep_view(), id) == local_at(upto, id) by {
                    assert(at(o, id) == local_at(list@.take(i as int), id));
                }
            },
        }
        i += 1;
    }
    assert(list@.take(i as int) =~= list@);
    proof {
        rows_are_table(t.deep_view(), |id: Seq<char>| local_at(list@, id));
    }
    Ok(t)
}

/// The text of an id: the canonical one, or else the local one.
pub open spec fn text_for(corpus: Option<Seq<char>>, local: Option<Seq<char>>) -> Option<Seq<char>> {
    match corpus {
        Some(t) => Some(t),
        None => local,
    }
}

/// The text of an id: the canonical one, or else the local one.
pub fn pick_text(corpus: Option<&str>, local: Option<&String>) -> (r: Option<String>)
    ensures
        r.deep_view() == text_for(corpus.deep_view(), local.deep_view()),
{
    match corpus {
        Some(t) => Some(owned(t)),
        None => match local {
            Some(t) => Some(owned(t.as_str())),
            None => None,
        },
    }
}

/// The text of an id in use.
pub open spec fn used_text(custom: Seq<(Seq<char>, Seq<char>)>, id: Seq<char>) -> Option<Seq<char>> {
    text_for(corpus_text(id), at(custom, id))
}

/// The message for an id without a text.
pub open spec fn no_text(id: Seq<char>) -> Seq<char> {
    "no text for '"@ + id + "' (add a [[license-text]] entry to tribute.toml)"@
}

/// The message for the first id without a text.
pub open spec fn missing_text(custom: Seq<(Seq<char>, Seq<char>)>, ids: Seq<Seq<char>>) -> Option<
    Seq<char>,
>
    decreases ids.len(),
{
    if ids.len() == 0 {
        None
    } else if used_text(custom, ids[0]) is None {
        Some(no_text(ids[0]))
    } else {
        missing_text(custom, ids.drop_first())
    }
}

/// The text of an id, if it is among those in use.
pub open spec fn text_at(
    custom: Seq<(Seq<char>, Seq<char>)>,
    ids: Seq<Seq<char>>,
    id: Seq<char>,
) -> Option<Seq<char>> {
    if ids.contains(id) {
        used_text(custom, id)
    } else {
        None
    }
}

/// The texts of the ids in use.
pub open spec fn text_rows(custom: Seq<(Seq<char>, Seq<char>)>, ids: Seq<Seq<char>>) -> Seq<
    (Seq<char>, Seq<char>),
> {
    table_of(|id: Seq<char>| text_at(custom, ids, id))
}

/// The text of each license and exception id in use; an id without a text is an error.
pub fn resolve_texts(ids: &Vec<String>, custom: &Table<String>) -> (r: Result<
    Table<String>,
    String,
>)
    ensures
        match r {
            Ok(t) => {
                &&& missing_text(custom.deep_view(), ids.deep_view()) is None
                &&& t.deep_view() == text_rows(custom.deep_view(), ids.deep_view())
                &&& t.wf()
                &&& forall|id: Seq<char>| #[trigger]
                    at(t.deep_view(), id) == text_at(custom.deep_view(), ids.deep_view(), id)
            },
            Err(e) => missing_text(custom.deep_view(), ids.deep_view()) == Some(e@),
        },
{
    let ghost cv = custom.deep_view();
    let ghost all = ids.deep_view();
    let mut t: Table<String> = Table::new();
    let mut i: usize = 0;
    assert(all.skip(0) =~= all);
    while i < ids.len()
        invariant
            cv == custom.deep_view(),
            all == ids.deep_view(),
            i <= ids@.len(),
            t.wf(),
            missing_text(cv, all) == missing_text(cv, all.skip(i as int)),
            forall|id: Seq<char>| #[trigger]
                at(t.deep_view(), id) == if all.take(i as int).contains(id) {
                    used_text(cv, id)
                } else {
                    None
                },
        decreases ids.len() - i,
    {
        let id = ids[i].as_str();
        let ghost rest = all.skip(i as int);
        let ghost u = all.take(i as int);
        let ghost w = all.take(i + 1);
        let ghost o = t.deep_view();
        assert(rest[0] == id@);
        assert(rest.drop_first() =~= all.skip(i + 1));
        match pick_text(canonical_text(id), custom.get(id)) {
            None => return Err(
                cat3("no text for '", id, "' (add a [[license-text]] entry to tribute.toml)"),
            ),
            Some(text) => {
                t.put(id, text);
                assert forall|k: Seq<char>| #[trigger]
                    at(t.deep_view(), k) == if w.contains(k) {
                        used_text(cv, k)
                    } else {
                        None
                    } by {
                    assert(at(o, k) == if u.contains(k) {
                        used_text(cv, k)
                    } else {
                        None
                    });
                    if u.contains(k) {
                        let m = choose|m: int| 0 <= m < u.len() && u[m] == k;
                        assert(w[m] == k);
                    }
                    if k == id@ {
                        assert(w[i as int] == k);
                    } else if w.contains(k) {
                        let m = choose|m: int| 0 <= m < w.len() && w[m] == k;
                        assert(m < i);
                        assert(u[m] == k);
                    }
                }
            },
        }
        i += 1;
    }
    assert(all.take(i as int) =~= all);
    proof {
        rows_are_table(t.deep_view(), |id: Seq<char>| text_at(cv, all, id));
    }
    Ok(t)
}

// ---------------------------------------------------------------- laws

/// When no text is missing, every license and exception in use has its text in the bundle,
/// and nothing else is in it.
pub proof fn each_id_in_use_has_its_text(
    custom: Seq<(Seq<char>, Seq<char>)>,
    ids: Seq<Seq<char>>,
    id: Seq<char>,
)
    requires
        missing_text(custom, ids) is None,
    ensures
        text_at(custom, ids, id) is Some <==> ids.contains(id),
    decreases ids.len(),
{
    if ids.contains(id) {
        let k = choose|k: int| 0 <= k < ids.len() && ids[k] == id;
        if k > 0 {
            let t = ids.drop_first();
            assert(t[k - 1] == id);
            each_id_in_use_has_its_text(custom, t, id);
        }
    }
}

/// No NOTICE is dropped: the body that ships under the name of a package holds the NOTICE
/// of that package, though another package may share the name.
pub proof fn no_notice_is_dropped(list: Seq<(PackageView, Seq<SourceFileView>)>, i: int)
    requires
        0 <= i < list.len(),
        shipped_extras(list[i]).notice is Some,
    ensures
        notice_at(list, notice_key(list[i].0)) is Some,
        contains(
            notice_at(list, notice_key(list[i].0))->0,
            shipped_extras(list[i]).notice->0,
        ),
    decreases list.len(),
{
    let key = notice_key(list[i].0);
    let n = shipped_extras(list[i]).notice->0;
    let rest = list.drop_last();
    let before = notice_at(rest, key);
    let now = notice_at(list, key);
    if i == list.len() - 1 {
        match before {
            Some(b) => {
                if b != n {
                    behind_is_contained(b + "\n"@, n);
                } else {
                    behind_is_contained(Seq::empty(), n);
                    assert(Seq::<char>::empty() + n =~= n);
                }
            },
            None => {
                behind_is_contained(Seq::empty(), n);
                assert(Seq::<char>::empty() + n =~= n);
            },
        }
    } else {
        assert(rest[i] == list[i]);
        no_notice_is_dropped(rest, i);
        if now != before {
            let m = shipped_extras(list.last()).notice->0;
            assert(now->0 == before->0 + "\n"@ + m);
            contained_stays(before->0, "\n"@, n);
            contained_stays(before->0 + "\n"@, m, n);
        }
    }
}

} // verus!
