//! What a run checks or writes, and what it says of that.

use vstd::prelude::*;
use vstd::string::*;
use crate::cli::{Failure, FailureView};
use crate::config::Settings;
use crate::number::{decimal, decimal_of};
use crate::run::Documents;
use crate::scan::{join, joined};
use crate::sets::{at, keys_of, lookup, Table};
use crate::stale::{as_list, drift, entry_path, license_orphans, notice_orphans, orphan_licenses, orphan_notices, path_of, stale_doc, stale_outputs, stale_paths, Disk, DiskView};
use crate::text::{cat2, cat3, cat4, cat5, owned};

verus! {

// ---------------------------------------------------------------- counts

/// How many of each a run attributes.
#[derive(Clone, Copy)]
pub struct Counts {
    pub texts: usize,
    pub notices: usize,
    pub crates: usize,
    pub extras: usize,
}

/// A number written out.
pub open spec fn shown(n: usize) -> Seq<char> {
    decimal_of(n as nat)
}

fn show(n: usize) -> (r: String)
    ensures
        r@ == shown(n),
{
    decimal(n as u128)
}

/// A number of things, named only when there are any.
pub open spec fn counted(n: usize, what: Seq<char>) -> Seq<char> {
    if n == 0 {
        Seq::empty()
    } else {
        ", "@ + shown(n) + what
    }
}

fn count(n: usize, what: &str) -> (r: String)
    ensures
        r@ == counted(n, what@),
{
    if n == 0 {
        String::new()
    } else {
        let d = show(n);
        cat3(", ", d.as_str(), what)
    }
}

// ---------------------------------------------------------------- checking

/// The summary of a check that passed.
pub open spec fn up_to_date(c: Counts) -> Seq<char> {
    "up to date: "@ + shown(c.texts) + " license texts"@ + counted(c.notices, " notices"@) + ", "@
        + shown(c.crates) + " crates"@ + counted(c.extras, " extras"@)
}

/// Everything that is out of date, over the documents that the layout has.
pub open spec fn out_of_date(
    s: Settings,
    texts: Seq<(Seq<char>, Seq<char>)>,
    notices: Seq<(Seq<char>, Seq<char>)>,
    manifest: Option<Seq<char>>,
    flat: Option<Seq<char>>,
    d: DiskView,
) -> Seq<Seq<char>> {
    (match manifest {
        Some(m) => stale_paths(
            s.licenses_dir@,
            texts,
            s.notices_dir@,
            notices,
            s.manifest@,
            m,
            d,
        ),
        None => Seq::empty(),
    }) + (match flat {
        Some(doc) => as_list(drift(s.flat_file@, at(d.files, s.flat_file@), doc)),
        None => Seq::empty(),
    })
}

/// The failure of a check.
pub open spec fn stale_failure(stale: Seq<Seq<char>>) -> Seq<char> {
    "out of date (run `cargo tribute`):\n  "@ + joined(stale, "\n  "@)
}

/// Checks what is on disk: passes exactly when nothing is out of date.
pub fn check(
    set: &Settings,
    texts: &Table<String>,
    notices: &Table<String>,
    docs: &Documents,
    counts: Counts,
    disk: &Disk,
) -> (r: Result<String, Failure>)
    ensures
        ({
            let stale = out_of_date(
                *set,
                texts.deep_view(),
                notices.deep_view(),
                docs.manifest.deep_view(),
                docs.flat.deep_view(),
                disk.deep_view(),
            );
            match r {
                Ok(s) => stale.len() == 0 && s@ == up_to_date(counts),
                Err(f) => stale.len() > 0 && f.deep_view() == FailureView::Stale(
                    stale_failure(stale),
                ),
            }
        }),
{
    let mut stale: Vec<String> = match &docs.manifest {
        Some(m) => stale_outputs(
            set.licenses_dir.as_str(),
            texts,
            set.notices_dir.as_str(),
            notices,
            set.manifest.as_str(),
            m.as_str(),
            disk,
        ),
        None => {
            let none: Vec<String> = Vec::new();
            assert(none.deep_view() =~= Seq::<Seq<char>>::empty());
            none
        },
    };
    let ghost first = stale.deep_view();
    assert(first + Seq::<Seq<char>>::empty() =~= first);
    if let Some(doc) = &docs.flat {
        let found = match lookup(&disk.files, set.flat_file.as_str()) {
            Some(t) => Some(t.as_str()),
            None => None,
        };
        if let Some(entry) = stale_doc(set.flat_file.as_str(), found, doc.as_str()) {
            let ghost e = entry@;
            stale.push(entry);
            assert(stale.deep_view() =~= first + seq![e]);
        }
    }
    if stale.len() > 0 {
        let list = join(&stale, "\n  ");
        return Err(
            Failure::Stale(cat2("out of date (run `cargo tribute`):\n  ", list.as_str())),
        );
    }
    let texts_shown = show(counts.texts);
    let mut out = cat3("up to date: ", texts_shown.as_str(), " license texts");
    let n = count(counts.notices, " notices");
    out.append(n.as_str());
    out.append(", ");
    let crates_shown = show(counts.crates);
    out.append(crates_shown.as_str());
    out.append(" crates");
    let e = count(counts.extras, " extras");
    out.append(e.as_str());
    Ok(out)
}

// ---------------------------------------------------------------- writing

/// A step of writing the output.
pub enum Step {
    /// remove a file; that it fails is no error
    Remove(String),
    /// remove a folder if it is empty; that it fails is no error
    RemoveFolder(String),
    /// create a folder and those above it
    CreateFolder(String),
    /// create the folder that a file stands in, and those above it
    CreateParent(String),
    /// write a file
    Write(String, String),
}

/// What a `Step` holds.
pub enum StepView {
    Remove(Seq<char>),
    RemoveFolder(Seq<char>),
    CreateFolder(Seq<char>),
    CreateParent(Seq<char>),
    Write(Seq<char>, Seq<char>),
}

impl DeepView for Step {
    type V = StepView;

    open spec fn deep_view(&self) -> StepView {
        match self {
            Step::Remove(p) => StepView::Remove(p@),
            Step::RemoveFolder(p) => StepView::RemoveFolder(p@),
            Step::CreateFolder(p) => StepView::CreateFolder(p@),
            Step::CreateParent(p) => StepView::CreateParent(p@),
            Step::Write(p, t) => StepView::Write(p@, t@),
        }
    }
}

/// Removes each file of a list.
pub open spec fn removals(paths: Seq<Seq<char>>) -> Seq<StepView> {
    paths.map_values(|p: Seq<char>| StepView::Remove(p))
}

/// Writes each row into a file of its own.
pub open spec fn writes(dir: Seq<char>, rows: Seq<(Seq<char>, Seq<char>)>) -> Seq<StepView> {
    rows.map_values(
        |row: (Seq<char>, Seq<char>)| StepView::Write(entry_path(dir, row.0), row.1),
    )
}

/// Fills a folder; one without anything to ship is not left behind.
pub open spec fn fills(dir: Seq<char>, rows: Seq<(Seq<char>, Seq<char>)>) -> Seq<StepView> {
    if rows.len() == 0 {
        seq![StepView::RemoveFolder(dir)]
    } else {
        seq![StepView::CreateFolder(dir)] + writes(dir, rows)
    }
}

/// The steps for the licenses folder: texts that are no longer used go, the others are
/// written.
pub open spec fn license_plan(
    dir: Seq<char>,
    texts: Seq<(Seq<char>, Seq<char>)>,
    entries: Seq<Seq<char>>,
) -> Seq<StepView> {
    removals(license_orphans(entries, keys_of(texts))) + fills(dir, texts)
}

/// The steps for the notices folder: NOTICE files that are no longer used go, the others
/// are written.
pub open spec fn notice_plan(
    dir: Seq<char>,
    notices: Seq<(Seq<char>, Seq<char>)>,
    entries: Seq<Seq<char>>,
) -> Seq<StepView> {
    removals(notice_orphans(entries, keys_of(notices))) + fills(dir, notices)
}

/// The steps for a document.
pub open spec fn document_plan(path: Seq<char>, doc: Option<Seq<char>>) -> Seq<StepView> {
    match doc {
        Some(t) => seq![StepView::CreateParent(path), StepView::Write(path, t)],
        None => Seq::empty(),
    }
}

fn remove_all(paths: Vec<String>) -> (r: Vec<Step>)
    ensures
        r.deep_view() == removals(paths.deep_view()),
{
    let ghost all = paths.deep_view();
    let mut out: Vec<Step> = Vec::new();
    let mut i: usize = 0;
    while i < paths.len()
        invariant
            all == paths.deep_view(),
            i <= paths@.len(),
            out@.len() == i,
            forall|j: int|
                0 <= j < i ==> (#[trigger] out@[j]).deep_view() == StepView::Remove(all[j]),
        decreases paths.len() - i,
    {
        out.push(Step::Remove(owned(paths[i].as_str())));
        i += 1;
    }
    assert(out.deep_view() =~= removals(all));
    out
}

fn add_fills(out: &mut Vec<Step>, dir: &str, rows: &Table<String>)
    ensures
        final(out).deep_view() == old(out).deep_view() + fills(dir@, rows.deep_view()),
{
    let ghost was = out.deep_view();
    let ghost all = rows.deep_view();
    if rows.rows.len() == 0 {
        out.push(Step::RemoveFolder(owned(dir)));
        assert(out.deep_view() =~= was + seq![StepView::RemoveFolder(dir@)]);
        return ;
    }
    out.push(Step::CreateFolder(owned(dir)));
    let ghost begun = was.push(StepView::CreateFolder(dir@));
    assert(out.deep_view() =~= begun);
    let mut i: usize = 0;
    assert(begun + writes(dir@, all).take(0) =~= begun);
    while i < rows.rows.len()
        invariant
            all == rows.deep_view(),
            i <= rows.rows@.len(),
            out.deep_view() == begun + writes(dir@, all).take(i as int),
        decreases rows.rows.len() - i,
    {
        let row = &rows.rows[i];
        let ghost o = out.deep_view();
        assert(all[i as int] == row.deep_view());
        let path = path_of(dir, row.0.as_str());
        let step = Step::Write(path, owned(row.1.as_str()));
        let ghost s = step.deep_view();
        assert(s == writes(dir@, all)[i as int]);
        out.push(step);
        assert(out.deep_view() =~= o.push(s));
        assert(begun + writes(dir@, all).take(i + 1) =~= (begun + writes(dir@, all).take(
            i as int,
        )).push(s));
        i += 1;
    }
    assert(writes(dir@, all).take(i as int) =~= writes(dir@, all));
    assert(begun + writes(dir@, all) =~= was + (seq![StepView::CreateFolder(dir@)] + writes(
        dir@,
        all,
    )));
}

/// The steps for the licenses folder, given what it holds.
pub fn plan_licenses(dir: &str, texts: &Table<String>, entries: &Vec<String>) -> (r: Vec<Step>)
    ensures
        r.deep_view() == license_plan(dir@, texts.deep_view(), entries.deep_view()),
{
    let mut out = remove_all(orphan_licenses(entries, texts));
    add_fills(&mut out, dir, texts);
    out
}

/// The steps for the notices folder, given what it holds.
pub fn plan_notices(dir: &str, notices: &Table<String>, entries: &Vec<String>) -> (r: Vec<Step>)
    ensures
        r.deep_view() == notice_plan(dir@, notices.deep_view(), entries.deep_view()),
{
    let mut out = remove_all(orphan_notices(entries, notices));
    add_fills(&mut out, dir, notices);
    out
}

fn add_document(out: &mut Vec<Step>, path: &str, doc: &Option<String>)
    ensures
        final(out).deep_view() == old(out).deep_view() + document_plan(path@, doc.deep_view()),
{
    let ghost was = out.deep_view();
    match doc {
        Some(t) => {
            out.push(Step::CreateParent(owned(path)));
            assert(out.deep_view() =~= was.push(StepView::CreateParent(path@)));
            out.push(Step::Write(owned(path), owned(t.as_str())));
            assert(out.deep_view() =~= was.push(StepView::CreateParent(path@)).push(
                StepView::Write(path@, t@),
            ));
            assert(out.deep_view() =~= was + seq![
                StepView::CreateParent(path@),
                StepView::Write(path@, t@),
            ]);
        },
        None => {
            assert(was + Seq::<StepView>::empty() =~= was);
        },
    }
}

/// The steps for the manifest and the all-in-one notices file.
pub fn plan_documents(set: &Settings, docs: &Documents) -> (r: Vec<Step>)
    ensures
        r.deep_view() == document_plan(set.manifest@, docs.manifest.deep_view())
            + document_plan(set.flat_file@, docs.flat.deep_view()),
{
    let mut out: Vec<Step> = Vec::new();
    add_document(&mut out, set.manifest.as_str(), &docs.manifest);
    assert(out.deep_view() =~= document_plan(set.manifest@, docs.manifest.deep_view()));
    add_document(&mut out, set.flat_file.as_str(), &docs.flat);
    out
}

/// The part of the summary on the notices folder.
pub open spec fn wrote_notices(link: Seq<char>, n: usize) -> Seq<char> {
    if n == 0 {
        Seq::empty()
    } else {
        ", "@ + link + "/ ("@ + shown(n) + " notices)"@
    }
}

/// The part of the summary on the all-in-one notices file.
pub open spec fn wrote_flat(link: Seq<char>, flat: bool) -> Seq<char> {
    if flat {
        " and "@ + link
    } else {
        Seq::empty()
    }
}

/// The summary of what was written.
pub open spec fn wrote(s: Settings, folders: bool, flat: bool, c: Counts) -> Seq<char> {
    if folders {
        "wrote "@ + s.licenses_link@ + "/ ("@ + shown(c.texts) + " license texts)"@ + wrote_notices(
            s.notices_link@,
            c.notices,
        ) + " and "@ + s.manifest_link@ + " ("@ + shown(c.crates) + " crates"@ + counted(
            c.extras,
            " extras"@,
        ) + ")"@ + wrote_flat(s.flat_link@, flat)
    } else {
        "wrote "@ + s.flat_link@ + " ("@ + shown(c.crates) + " crates"@ + counted(
            c.extras,
            " extras"@,
        ) + ")"@
    }
}

/// The summary of what was written.
pub fn write_summary(set: &Settings, docs: &Documents, counts: Counts) -> (r: String)
    ensures
        r@ == wrote(*set, docs.manifest is Some, docs.flat is Some, counts),
{
    let crates_shown = show(counts.crates);
    let e = count(counts.extras, " extras");
    if docs.manifest.is_some() {
        let texts_shown = show(counts.texts);
        let mut out = cat5(
            "wrote ",
            set.licenses_link.as_str(),
            "/ (",
            texts_shown.as_str(),
            " license texts)",
        );
        let n = if counts.notices == 0 {
            String::new()
        } else {
            let d = show(counts.notices);
            cat5(", ", set.notices_link.as_str(), "/ (", d.as_str(), " notices)")
        };
        out.append(n.as_str());
        out.append(" and ");
        out.append(set.manifest_link.as_str());
        out.append(" (");
        out.append(crates_shown.as_str());
        out.append(" crates");
        out.append(e.as_str());
        out.append(")");
        let f = if docs.flat.is_some() {
            cat2(" and ", set.flat_link.as_str())
        } else {
            String::new()
        };
        out.append(f.as_str());
        out
    } else {
        let mut out = cat4("wrote ", set.flat_link.as_str(), " (", crates_shown.as_str());
        out.append(" crates");
        out.append(e.as_str());
        out.append(")");
        out
    }
}

} // verus!
