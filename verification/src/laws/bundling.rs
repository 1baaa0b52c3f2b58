//! What is shipped with the manifest, and what the files of crates are held against.

use vstd::prelude::*;
use crate::audit::{audit_report, is_leaf, is_mismatch, leaves_of, mismatch, mismatches, ScanView};
use crate::bundle::{
    extras_at, local_at, missing_text, notice_at, text_at, unread, used_text, LocalText,
};
use crate::expression::{spdx_parse, NodeView};
use crate::graph::PackageView;
use crate::harvest::{extras_of, lf, scans, SourceFileView};
use crate::laws::judging::every_term_is_referred_to;
use crate::number::decimal_of;
use crate::policy::{spdx_exception_text, spdx_license_text};
use crate::resolve::terms_of;
use crate::scan::{contains, joined};
use crate::sets::{at, in_order_lists, sorted};

verus! {

// ---------------------------------------------------------------- what packages ship

/// What the files of a package add is harvested from that package's files and authors; a
/// package that was not looked at adds nothing.
pub proof fn each_package_adds_its_own(list: Seq<(PackageView, Seq<SourceFileView>)>, p: PackageView, files: Seq<SourceFileView>, id: Seq<char>)
    ensures
        extras_at(Seq::empty(), id) is None,
        extras_at(list.push((p, files)), id) == if p.id == id {
            Some(extras_of(p.authors, scans(files)))
        } else {
            extras_at(list, id)
        },
{
    assert(list.push((p, files)).drop_last() =~= list);
}

/// A NOTICE is kept under the name and version of its package. Packages that share these
/// share one file: the same text is kept once, other texts one below the other. A package
/// without a NOTICE changes nothing.
pub proof fn notices_go_by_name_and_version(
    list: Seq<(PackageView, Seq<SourceFileView>)>,
    p: PackageView,
    files: Seq<SourceFileView>,
    key: Seq<char>,
)
    ensures
        notice_at(Seq::empty(), key) is None,
        notice_at(list.push((p, files)), key) == match extras_of(p.authors, scans(files)).notice {
            Some(n) if key == p.name + "-"@ + p.version => Some(
                match notice_at(list, key) {
                    None => n,
                    Some(b) => if b == n {
                        b
                    } else {
                        b + "\n"@ + n
                    },
                },
            ),
            _ => notice_at(list, key),
        },
{
    assert(list.push((p, files)).drop_last() =~= list);
}

// ---------------------------------------------------------------- license texts

/// The text of a license is that of the SPDX list, else that of its exception, else the
/// local one.
pub proof fn canonical_text_comes_first(custom: Seq<(Seq<char>, Seq<char>)>, id: Seq<char>)
    ensures
        spdx_license_text(id) is Some ==> used_text(custom, id) == spdx_license_text(id),
        spdx_license_text(id) is None && spdx_exception_text(id) is Some ==> used_text(custom, id)
            == spdx_exception_text(id),
        spdx_license_text(id) is None && spdx_exception_text(id) is None ==> used_text(custom, id) == at(custom, id),
{
}

/// Of several local texts for one id the last counts, with its line ends normalized.
pub proof fn last_local_text_counts(list: Seq<LocalText>, t: LocalText, id: Seq<char>)
    ensures
        local_at(Seq::empty(), id) is None,
        local_at(list.push(t), id) == if t.id@ == id {
            match t.content {
                Ok(s) => Some(lf(s@)),
                Err(_) => None,
            }
        } else {
            local_at(list, id)
        },
{
    assert(list.push(t).drop_last() =~= list);
}

/// A local text that could not be read is reported, the first of them, with its path.
pub proof fn first_unreadable_text_is_reported(list: Seq<LocalText>)
    ensures
        match unread(list) {
            Some(m) => exists|i: int|
                #![trigger list[i]]
                0 <= i < list.len() && (list[i].content matches Err(e) && m == list[i].path@ + ": "@ + e@) && forall|j: int|
                    0 <= j < i ==> (#[trigger] list[j]).content is Ok,
            None => forall|i: int| 0 <= i < list.len() ==> (#[trigger] list[i]).content is Ok,
        },
    decreases list.len(),
{
    if list.len() > 0 && list[0].content is Ok {
        let rest = list.drop_first();
        first_unreadable_text_is_reported(rest);
        match unread(list) {
            Some(m) => {
                let i = choose|i: int|
                    #![trigger rest[i]]
                    0 <= i < rest.len() && (rest[i].content matches Err(e) && m == rest[i].path@ + ": "@ + e@)
                        && forall|j: int| 0 <= j < i ==> (#[trigger] rest[j]).content is Ok;
                assert(list[i + 1] == rest[i]);
                assert forall|j: int| 0 <= j < i + 1 implies (#[trigger] list[j]).content is Ok by {
                    if j > 0 {
                        assert(list[j] == rest[j - 1]);
                    }
                }
            },
            None => {
                assert forall|i: int| 0 <= i < list.len() implies (#[trigger] list[i]).content is Ok by {
                    if i > 0 {
                        assert(list[i] == rest[i - 1]);
                    }
                }
            },
        }
    } else if list.len() > 0 {
        assert(list[0].content is Err);
    }
}

/// The run fails for want of a text exactly when some id in use has none; the message names
/// the first.
pub proof fn first_missing_text_is_reported(custom: Seq<(Seq<char>, Seq<char>)>, ids: Seq<Seq<char>>)
    ensures
        match missing_text(custom, ids) {
            Some(m) => exists|i: int|
                #![trigger ids[i]]
                0 <= i < ids.len() && used_text(custom, ids[i]) is None && m == "no text for '"@ + ids[i]
                    + "' (add a [[license-text]] entry to tribute.toml)"@ && forall|j: int|
                    0 <= j < i ==> used_text(custom, #[trigger] ids[j]) is Some,
            None => forall|i: int| 0 <= i < ids.len() ==> used_text(custom, #[trigger] ids[i]) is Some,
        },
    decreases ids.len(),
{
    if ids.len() > 0 && used_text(custom, ids[0]) is Some {
        let rest = ids.drop_first();
        first_missing_text_is_reported(custom, rest);
        match missing_text(custom, ids) {
            Some(m) => {
                let i = choose|i: int|
                    #![trigger rest[i]]
                    0 <= i < rest.len() && used_text(custom, rest[i]) is None && m == "no text for '"@ + rest[i]
                        + "' (add a [[license-text]] entry to tribute.toml)"@ && forall|j: int|
                        0 <= j < i ==> used_text(custom, #[trigger] rest[j]) is Some;
                assert(ids[i + 1] == rest[i]);
                assert forall|j: int| 0 <= j < i + 1 implies used_text(custom, #[trigger] ids[j]) is Some by {
                    if j > 0 {
                        assert(ids[j] == rest[j - 1]);
                    }
                }
            },
            None => {
                assert forall|i: int| 0 <= i < ids.len() implies used_text(custom, #[trigger] ids[i]) is Some by {
                    if i > 0 {
                        assert(ids[i] == rest[i - 1]);
                    }
                }
            },
        }
    } else if ids.len() > 0 {
        assert(used_text(custom, ids[0]) is None);
    }
}

/// The texts that are written are those of the ids in use, and no others.
pub proof fn only_texts_in_use_are_written(custom: Seq<(Seq<char>, Seq<char>)>, ids: Seq<Seq<char>>, id: Seq<char>)
    ensures
        ids.contains(id) ==> text_at(custom, ids, id) == used_text(custom, id),
        !ids.contains(id) ==> text_at(custom, ids, id) is None,
{
}

// ---------------------------------------------------------------- the audit

proof fn leaves_are_finite(nodes: Seq<NodeView>)
    ensures
        Set::new(|l: Seq<char>| is_leaf(nodes, l)).finite(),
{
    let names = Seq::new(terms_of(nodes).len(), |i: int| terms_of(nodes)[i].0);
    vstd::seq_lib::seq_to_set_is_finite(names);
    let s = Set::new(|l: Seq<char>| is_leaf(nodes, l));
    assert forall|l: Seq<char>| #[trigger] s.contains(l) implies names.to_set().contains(l) by {
        let i = choose|i: int| 0 <= i < terms_of(nodes).len() && (#[trigger] terms_of(nodes)[i]).0 == l;
        assert(names[i] == l);
    }
    vstd::set_lib::lemma_set_subset_finite(names.to_set(), s);
}

/// The declared licenses are all that the expression names, chosen or not; an expression
/// that is absent or cannot be read declares none.
pub proof fn declared_licenses_are_all_named(declared: Option<Seq<char>>, l: Seq<char>)
    ensures
        sorted(leaves_of(declared)) || declared is None || spdx_parse(declared->0) is Err,
        leaves_of(declared).contains(l) <==> (declared matches Some(e) && (spdx_parse(e) matches Ok(nodes)
            && exists|i: int|
            0 <= i < nodes.len() && ((#[trigger] nodes[i]) matches NodeView::Req(t) && l == (match t.id {
                Some(id) => id,
                None => t.text,
            })))),
{
    if let Some(e) = declared {
        if let Ok(nodes) = spdx_parse(e) {
            leaves_are_finite(nodes);
            let set = Set::new(|l: Seq<char>| is_leaf(nodes, l));
            in_order_lists(set);
            let list = leaves_of(declared);
            assert(list.to_set().contains(l) <==> list.contains(l));
            assert(set.contains(l) <==> is_leaf(nodes, l));
            let ts = terms_of(nodes);
            if is_leaf(nodes, l) {
                let i = choose|i: int| 0 <= i < ts.len() && (#[trigger] ts[i]).0 == l;
                assert(ts.contains((l, ts[i].1)));
                every_term_is_referred_to(nodes, l, ts[i].1);
            }
            if exists|i: int|
                0 <= i < nodes.len() && ((#[trigger] nodes[i]) matches NodeView::Req(t) && l == (match t.id {
                    Some(id) => id,
                    None => t.text,
                })) {
                let i = choose|i: int|
                    0 <= i < nodes.len() && ((#[trigger] nodes[i]) matches NodeView::Req(t) && l == (match t.id {
                        Some(id) => id,
                        None => t.text,
                    }));
                let x = nodes[i]->Req_0.exception;
                every_term_is_referred_to(nodes, l, x);
                let k = choose|k: int| 0 <= k < ts.len() && ts[k] == (l, x);
                assert(ts[k].0 == l);
            }
        }
    }
}

/// A file is a mismatch exactly when it matches some license well, and neither that one nor
/// one that matches about as well is declared.
pub proof fn mismatch_is_undeclared(s: ScanView, leaves: Seq<Seq<char>>)
    ensures
        is_mismatch(s, leaves) <==> s.confident && !(exists|l: Seq<char>| #[trigger]
            leaves.contains(l) && (l == s.best || s.close.contains(l))),
{
    if s.confident && !is_mismatch(s, leaves) {
        if leaves.contains(s.best) {
        } else {
            let i = choose|i: int| 0 <= i < leaves.len() && s.close.contains(#[trigger] leaves[i]);
            assert(leaves.contains(leaves[i]));
        }
    }
    if is_mismatch(s, leaves) {
        assert forall|l: Seq<char>| #[trigger] leaves.contains(l) implies l != s.best && !s.close.contains(l) by {
            let i = choose|i: int| 0 <= i < leaves.len() && leaves[i] == l;
            assert(!s.close.contains(leaves[i]));
        }
    }
}

/// A mismatch tells the crate, the file, what the file matches and how well, and what is
/// declared.
pub proof fn mismatch_tells(s: ScanView)
    ensures
        s.declared matches Some(d) ==> mismatch(s) == s.name + " "@ + s.version + ": "@ + s.file + " matches "@ + s.best
            + " (score "@ + s.score + ") but the declared license is '"@ + d + "'"@,
        s.declared is None ==> mismatch(s) == s.name + " "@ + s.version + ": "@ + s.file + " matches "@ + s.best
            + " (score "@ + s.score + ") but the declared license is '"@ + "<none>"@ + "'"@,
{
}

/// Every file is held against the licenses of its own crate, in order.
pub proof fn each_file_is_audited(a: Seq<ScanView>, b: Seq<ScanView>, s: ScanView)
    ensures
        mismatches(a + b) == mismatches(a) + mismatches(b),
        mismatches(seq![s]) == if is_mismatch(s, leaves_of(s.declared)) {
            seq![mismatch(s)]
        } else {
            Seq::empty()
        },
        mismatches(Seq::empty()) == Seq::<Seq<char>>::empty(),
    decreases b.len(),
{
    if b.len() == 0 {
        assert(a + b =~= a);
        assert(mismatches(a) + mismatches(b) =~= mismatches(a));
    } else {
        each_file_is_audited(a, b.drop_last(), s);
        assert((a + b).drop_last() =~= a + b.drop_last());
        assert(mismatches(a + b) =~= mismatches(a) + mismatches(b));
    }
    reveal_with_fuel(mismatches, 2);
    assert(seq![s].drop_last() =~= Seq::<ScanView>::empty());
    if is_mismatch(s, leaves_of(s.declared)) {
        assert(mismatches(seq![s]) =~= seq![mismatch(s)]);
    }
}

/// The audit tells how many files it looked at in how many crates when all is well, and
/// otherwise how many mismatches there are and each of them.
pub proof fn audit_tells(list: Seq<ScanView>, crates: nat)
    ensures
        mismatches(list).len() == 0 ==> audit_report(list, crates) == "audit: no mismatches ("@ + decimal_of(list.len())
            + " license files scanned across "@ + decimal_of(crates) + " crates)"@,
        mismatches(list).len() > 0 ==> audit_report(list, crates) == "audit: "@ + decimal_of(mismatches(list).len())
            + " possible mismatches (advisory only):\n  "@ + joined(mismatches(list), "\n  "@),
{
}

} // verus!
