//! Declared licenses against the license files that crates ship. The report is advisory.

use vstd::prelude::*;
use vstd::string::*;
use crate::expression::{parsed, spdx_parse, Expression, NodeView};
use crate::harvest::{attribution_files, scans, AttributionFile, AttributionView, SourceFile};
use crate::number::{decimal, decimal_of};
use crate::resolve::{term_list, terms_of};
use crate::scan::{join, joined};
use crate::sets::{add_text, has, in_order, sorted, sorted_is_in_order};
use crate::text::{cat3, cat5, owned};

verus! {

/// A license file of a crate, matched against the license texts of the SPDX list.
pub struct Scan {
    pub name: String,
    pub version: String,
    /// the expression that is used for the crate
    pub declared: Option<String>,
    pub file: String,
    /// the license whose text matches best
    pub best: String,
    /// it matches well enough to say so
    pub confident: bool,
    /// how well it matches, with two decimals
    pub score: String,
    /// declared licenses that match about as well
    pub close: Vec<String>,
}

/// What a `Scan` holds.
pub struct ScanView {
    pub name: Seq<char>,
    pub version: Seq<char>,
    pub declared: Option<Seq<char>>,
    pub file: Seq<char>,
    pub best: Seq<char>,
    pub confident: bool,
    pub score: Seq<char>,
    pub close: Seq<Seq<char>>,
}

impl DeepView for Scan {
    type V = ScanView;

    open spec fn deep_view(&self) -> ScanView {
        ScanView {
            name: self.name@,
            version: self.version@,
            declared: self.declared.deep_view(),
            file: self.file@,
            best: self.best@,
            confident: self.confident,
            score: self.score@,
            close: self.close.deep_view(),
        }
    }
}

// ---------------------------------------------------------------- license files

/// The license files among the files of a crate, by name, without its NOTICE files.
pub fn license_files(files: &Vec<SourceFile>) -> (r: Vec<AttributionFile>)
    ensures
        r.deep_view() == scans(files.deep_view()).filter(|f: AttributionView| !f.is_notice),
{
    let found = attribution_files(files);
    let ghost all = found.deep_view();
    let ghost pred = |f: AttributionView| !f.is_notice;
    let mut out: Vec<AttributionFile> = Vec::new();
    let mut i: usize = 0;
    proof {
        reveal(Seq::filter);
        assert(all.take(0).filter(pred) =~= Seq::<AttributionView>::empty());
        assert(out.deep_view() =~= Seq::<AttributionView>::empty());
    }
    while i < found.len()
        invariant
            all == found.deep_view(),
            pred == (|f: AttributionView| !f.is_notice),
            i <= found@.len(),
            out.deep_view() == all.take(i as int).filter(pred),
        decreases found.len() - i,
    {
        let f = &found[i];
        let ghost o = out.deep_view();
        let ghost x = f.deep_view();
        proof {
            reveal(Seq::filter);
            assert(all.take(i + 1).drop_last() =~= all.take(i as int));
            assert(all.take(i + 1).last() == x);
        }
        if !f.is_notice {
            out.push(
                AttributionFile {
                    name: owned(f.name.as_str()),
                    text: owned(f.text.as_str()),
                    is_notice: false,
                },
            );
            assert(out.deep_view() =~= o.push(x));
        }
        i += 1;
    }
    assert(all.take(i as int) =~= all);
    out
}

// ---------------------------------------------------------------- declared licenses

/// A license of an expression.
pub open spec fn is_leaf(nodes: Seq<NodeView>, l: Seq<char>) -> bool {
    exists|i: int| 0 <= i < terms_of(nodes).len() && (#[trigger] terms_of(nodes)[i]).0 == l
}

/// The licenses of an expression, in ascending order; none if it cannot be parsed.
pub open spec fn leaves_in(parsed: Result<Seq<NodeView>, Seq<char>>) -> Seq<Seq<char>> {
    match parsed {
        Ok(nodes) => in_order(Set::new(|l: Seq<char>| is_leaf(nodes, l))),
        Err(_) => Seq::empty(),
    }
}

/// The licenses of a declared expression. Every one counts, not only those that are chosen:
/// the question is what the crate ships.
pub open spec fn leaves_of(declared: Option<Seq<char>>) -> Seq<Seq<char>> {
    match declared {
        Some(e) => leaves_in(spdx_parse(e)),
        None => Seq::empty(),
    }
}

/// The licenses of an expression, given what it parses to.
pub fn leaf_names(result: Result<Expression, String>) -> (r: Vec<String>)
    ensures
        r.deep_view() == leaves_in(parsed(result)),
        sorted(r.deep_view()),
        forall|l: Seq<char>| #[trigger]
            r.deep_view().contains(l) <==> (parsed(result) matches Ok(nodes) && is_leaf(nodes, l)),
{
    let mut out: Vec<String> = Vec::new();
    match result {
        Ok(e) => {
            let terms = term_list(&e);
            let ghost nodes = e.deep_view();
            let ghost all = terms.deep_view();
            let mut i: usize = 0;
            while i < terms.len()
                invariant
                    all == terms.deep_view(),
                    i <= terms@.len(),
                    sorted(out.deep_view()),
                    forall|l: Seq<char>| #[trigger]
                        out.deep_view().contains(l) <==> exists|j: int|
                            0 <= j < i && (#[trigger] all[j]).0 == l,
                decreases terms.len() - i,
            {
                let ghost o = out.deep_view();
                let ghost x = terms@[i as int].0@;
                assert(all[i as int].0 == x);
                add_text(&mut out, terms[i].0.as_str());
                assert forall|l: Seq<char>| #[trigger]
                    out.deep_view().contains(l) == exists|j: int|
                        0 <= j < i + 1 && (#[trigger] all[j]).0 == l by {
                    assert(out.deep_view().to_set().contains(l) == o.to_set().insert(x).contains(l));
                    assert(o.contains(l) == exists|j: int|
                        0 <= j < i && (#[trigger] all[j]).0 == l);
                    if exists|j: int| 0 <= j < i + 1 && (#[trigger] all[j]).0 == l {
                        let j = choose|j: int| 0 <= j < i + 1 && (#[trigger] all[j]).0 == l;
                        if j < i {
                            assert(o.contains(l));
                        }
                    }
                }
                i += 1;
            }
            proof {
                let want = Set::new(|l: Seq<char>| is_leaf(nodes, l));
                assert forall|l: Seq<char>| out.deep_view().to_set().contains(l) == want.contains(
                    l,
                ) by {
                    assert(out.deep_view().contains(l) == exists|j: int|
                        0 <= j < i && (#[trigger] all[j]).0 == l);
                    assert(all == terms_of(nodes));
                }
                assert(out.deep_view().to_set() =~= want);
                assert forall|l: Seq<char>| #[trigger]
                    out.deep_view().contains(l) == is_leaf(nodes, l) by {
                    assert(out.deep_view().to_set().contains(l) == want.contains(l));
                }
                sorted_is_in_order(out.deep_view());
            }
        },
        Err(_) => {
            assert(out.deep_view() =~= Seq::<Seq<char>>::empty());
        },
    }
    out
}

/// The licenses of a declared expression, in ascending order.
pub fn declared_leaves(declared: Option<&str>) -> (r: Vec<String>)
    ensures
        r.deep_view() == leaves_of(declared.deep_view()),
        sorted(r.deep_view()),
        forall|l: Seq<char>| #[trigger]
            r.deep_view().contains(l) <==> (declared matches Some(e) && spdx_parse(e@) matches Ok(nodes)
                && is_leaf(nodes, l)),
{
    match declared {
        Some(e) => leaf_names(Expression::parse(e)),
        None => {
            let none: Vec<String> = Vec::new();
            assert(none.deep_view() =~= Seq::<Seq<char>>::empty());
            none
        },
    }
}

// ---------------------------------------------------------------- findings

/// A license file matches a license that the crate does not declare, and none of those
/// that it does declare matches about as well.
pub open spec fn is_mismatch(s: ScanView, leaves: Seq<Seq<char>>) -> bool {
    &&& s.confident
    &&& !leaves.contains(s.best)
    &&& forall|i: int| 0 <= i < leaves.len() ==> !s.close.contains(#[trigger] leaves[i])
}

/// What is said of a mismatch.
pub open spec fn mismatch(s: ScanView) -> Seq<char> {
    s.name + " "@ + s.version + ": "@ + s.file + " matches "@ + s.best + " (score "@ + s.score
        + ") but the declared license is '"@ + match s.declared {
        Some(d) => d,
        None => "<none>"@,
    } + "'"@
}

/// The mismatches among scans, in order.
pub open spec fn mismatches(list: Seq<ScanView>) -> Seq<Seq<char>>
    decreases list.len(),
{
    if list.len() == 0 {
        Seq::empty()
    } else if is_mismatch(list.last(), leaves_of(list.last().declared)) {
        mismatches(list.drop_last()).push(mismatch(list.last()))
    } else {
        mismatches(list.drop_last())
    }
}

/// The report.
pub open spec fn audit_report(list: Seq<ScanView>, crates: nat) -> Seq<char> {
    let found = mismatches(list);
    if found.len() == 0 {
        "audit: no mismatches ("@ + decimal_of(list.len()) + " license files scanned across "@
            + decimal_of(crates) + " crates)"@
    } else {
        "audit: "@ + decimal_of(found.len()) + " possible mismatches (advisory only):\n  "@
            + joined(found, "\n  "@)
    }
}

/// What is said of a license file, given the licenses that its crate declares.
pub fn finding(s: &Scan, leaves: &Vec<String>) -> (r: Option<String>)
    ensures
        r.deep_view() == if is_mismatch(s.deep_view(), leaves.deep_view()) {
            Some(mismatch(s.deep_view()))
        } else {
            None
        },
{
    if !s.confident || has(leaves, s.best.as_str()) {
        return None;
    }
    let ghost sv = s.deep_view();
    let ghost all = leaves.deep_view();
    let mut i: usize = 0;
    while i < leaves.len()
        invariant
            sv == s.deep_view(),
            all == leaves.deep_view(),
            i <= leaves@.len(),
            forall|j: int| 0 <= j < i ==> !sv.close.contains(#[trigger] all[j]),
        decreases leaves.len() - i,
    {
        assert(all[i as int] == leaves@[i as int]@);
        if has(&s.close, leaves[i].as_str()) {
            return None;
        }
        i += 1;
    }
    let mut out = cat5(s.name.as_str(), " ", s.version.as_str(), ": ", s.file.as_str());
    out.append(" matches ");
    out.append(s.best.as_str());
    out.append(" (score ");
    out.append(s.score.as_str());
    out.append(") but the declared license is '");
    match &s.declared {
        Some(d) => out.append(d.as_str()),
        None => out.append("<none>"),
    }
    out.append("'");
    Some(out)
}

/// The report on license files whose best match is not covered by the license that their
/// crate declares.
pub fn run_audit(list: &Vec<Scan>, crates: usize) -> (r: String)
    ensures
        r@ == audit_report(list.deep_view(), crates as nat),
{
    let ghost all = list.deep_view();
    let mut found: Vec<String> = Vec::new();
    let mut i: usize = 0;
    assert(found.deep_view() =~= mismatches(all.take(0)));
    while i < list.len()
        invariant
            all == list.deep_view(),
            i <= list@.len(),
            found.deep_view() == mismatches(all.take(i as int)),
        decreases list.len() - i,
    {
        let s = &list[i];
        let ghost upto = all.take(i + 1);
        let ghost o = found.deep_view();
        assert(upto.drop_last() =~= all.take(i as int));
        assert(upto.last() == s.deep_view());
        let leaves = match &s.declared {
            Some(d) => declared_leaves(Some(d.as_str())),
            None => declared_leaves(None),
        };
        if let Some(m) = finding(s, &leaves) {
            let ghost mv = m@;
            found.push(m);
            assert(found.deep_view() =~= o.push(mv));
        }
        i += 1;
    }
    assert(all.take(i as int) =~= all);
    if found.len() == 0 {
        let scanned = decimal(list.len() as u128);
        let n = decimal(crates as u128);
        cat5(
            "audit: no mismatches (",
            scanned.as_str(),
            " license files scanned across ",
            n.as_str(),
            " crates)",
        )
    } else {
        let n = decimal(found.len() as u128);
        let lines = join(&found, "\n  ");
        let mut out = cat3("audit: ", n.as_str(), " possible mismatches (advisory only):\n  ");
        out.append(lines.as_str());
        out
    }
}

} // verus!
