//! What the configuration means, and what it is warned of.

use vstd::prelude::*;
use crate::config::{
    accept_of, accepted_texts, accepts_of, allowed_by, deny_allow, deny_error, deny_exceptions,
    is_empty_config, listed, or_link, outside_file, path_error, same_but_policy, settings_of,
    unknown_id, unknown_ids, AcceptView, ClarifyView, Config, DEFAULT_ACCEPTED, DenyFile,
    ExceptionView, ExtraView, Layout, LicenseText, LicenseTextView, Settings,
};
use crate::graph::PackageView;
use crate::paths::{
    components_tell, is_inside, plain_name_stays_inside, slash_link, under, LinkView, Part,
};
use crate::policy::{spdx_exception_text, spdx_license_text};
use crate::resolve::{refers, JudgementView};
use crate::scan::starts;
use crate::versions::semver_matches;
use crate::warnings::{
    is_unmatched, unknown_in, unknown_in_exceptions, unmatched_clarify, unmatched_exceptions,
    unmatched_warning, unused_accepted, unused_text_warning, unused_texts, unused_warning,
};

verus! {

// ---------------------------------------------------------------- settings

/// A switch is on exactly when the file sets it to true.
pub proof fn switches_are_off_unless_set(s: Settings, root: Seq<char>, c: Config)
    requires
        settings_of(s, root, c),
    ensures
        s.include_dev <==> c.include_dev == Some(true),
        s.include_build <==> c.include_build == Some(true),
        s.skip_private <==> c.skip_private == Some(true),
        s.skip_proc_macros <==> c.skip_proc_macros == Some(true),
        s.accepted_explicit <==> c.accepted is Some,
{
}

/// The accepted licenses are those of the file, in its order; without such a list, nine
/// permissive ones.
pub proof fn accepted_licenses_of_the_file(s: Settings, root: Seq<char>, c: Config)
    requires
        settings_of(s, root, c),
    ensures
        c.accepted matches Some(v) ==> {
            &&& s.accepted@.len() == v@.len()
            &&& forall|i: int| 0 <= i < v@.len() ==> (#[trigger] s.accepted@[i]).deep_view() == accept_of(v@[i]@)
        },
        c.accepted is None ==> {
            &&& s.accepted@.len() == 9
            &&& s.accepted@[0].deep_view() == accept_of("MIT"@)
            &&& s.accepted@[1].deep_view() == accept_of("Apache-2.0"@)
            &&& s.accepted@[2].deep_view() == accept_of("BSD-2-Clause"@)
            &&& s.accepted@[3].deep_view() == accept_of("BSD-3-Clause"@)
            &&& s.accepted@[4].deep_view() == accept_of("ISC"@)
            &&& s.accepted@[5].deep_view() == accept_of("0BSD"@)
            &&& s.accepted@[6].deep_view() == accept_of("Zlib"@)
            &&& s.accepted@[7].deep_view() == accept_of("Unlicense"@)
            &&& s.accepted@[8].deep_view() == accept_of("Unicode-3.0"@)
        },
{
    let views = s.accepted.deep_view();
    assert(views.len() == s.accepted@.len());
    assert forall|i: int| 0 <= i < s.accepted@.len() implies views[i] == (#[trigger] s.accepted@[i]).deep_view() by {
    }
    match c.accepted {
        Some(v) => {
            assert(v.deep_view().len() == v@.len());
            assert forall|i: int| 0 <= i < v@.len() implies (#[trigger] s.accepted@[i]).deep_view() == accept_of(
                v@[i]@,
            ) by {
                assert(v.deep_view()[i] == v@[i]@);
                assert(views[i] == accept_of(v.deep_view()[i]));
            }
        },
        None => {
            let t = accepted_texts(None);
            assert(t.len() == 9);
            assert forall|i: int| 0 <= i < 9 implies views[i] == accept_of(DEFAULT_ACCEPTED@[i]@) by {
                assert(views[i] == accept_of(t[i]));
            }
            assert(views[0] == s.accepted@[0].deep_view());
            assert(views[1] == s.accepted@[1].deep_view());
            assert(views[2] == s.accepted@[2].deep_view());
            assert(views[3] == s.accepted@[3].deep_view());
            assert(views[4] == s.accepted@[4].deep_view());
            assert(views[5] == s.accepted@[5].deep_view());
            assert(views[6] == s.accepted@[6].deep_view());
            assert(views[7] == s.accepted@[7].deep_view());
            assert(views[8] == s.accepted@[8].deep_view());
        },
    }
}

/// Without a file nothing is on, nothing is clarified, excepted or added, nothing is accepted
/// but the nine licenses, and the folders are written.
pub proof fn settings_without_a_file(s: Settings, root: Seq<char>, c: Config)
    requires
        is_empty_config(c),
        settings_of(s, root, c),
    ensures
        !s.accepted_explicit && !s.include_dev && !s.include_build && !s.skip_private && !s.skip_proc_macros,
        s.accepted@.len() == 9,
        s.clarify@.len() == 0 && s.exception@.len() == 0 && s.extra@.len() == 0 && s.license_text@.len() == 0,
        s.layout == Layout::Folders,
        s.manifest_link@ == "THIRD-PARTY.md"@,
        s.licenses_link@ == "LICENSES"@,
        s.notices_link@ == "NOTICES"@,
        s.flat_link@ == "THIRD-PARTY-NOTICES"@,
{
    accepted_licenses_of_the_file(s, root, c);
}

/// The policy of a deny.toml leaves all other settings as they are.
pub proof fn deny_file_changes_the_policy_only(a: Settings, b: Settings)
    requires
        same_but_policy(a, b),
    ensures
        a.include_dev == b.include_dev && a.include_build == b.include_build,
        a.skip_private == b.skip_private && a.skip_proc_macros == b.skip_proc_macros,
        a.clarify == b.clarify && a.extra == b.extra && a.license_text == b.license_text,
        a.layout == b.layout,
        a.manifest == b.manifest && a.manifest_link == b.manifest_link,
        a.licenses_dir == b.licenses_dir && a.licenses_link == b.licenses_link,
        a.notices_dir == b.notices_dir && a.notices_link == b.notices_link,
        a.flat_file == b.flat_file && a.flat_link == b.flat_link,
{
}

/// The entries of the file are taken over, all of them and in order.
pub proof fn entries_are_taken_over(s: Settings, root: Seq<char>, c: Config)
    requires
        settings_of(s, root, c),
    ensures
        c.clarify matches Some(v) ==> s.clarify@ == v@,
        c.clarify is None ==> s.clarify@.len() == 0,
        c.exception matches Some(v) ==> s.exception@ == v@,
        c.exception is None ==> s.exception@.len() == 0,
        c.extra matches Some(v) ==> s.extra@ == v@,
        c.extra is None ==> s.extra@.len() == 0,
        c.license_text matches Some(v) ==> s.license_text@ == v@,
        c.license_text is None ==> s.license_text@.len() == 0,
{
}

/// The output goes where the file says, under the project root, and has a place of its own
/// where the file says nothing; only the folders are written unless the file asks for more.
pub proof fn output_goes_where_the_file_says(s: Settings, root: Seq<char>, c: Config)
    requires
        settings_of(s, root, c),
    ensures
        c.layout matches Some(l) ==> s.layout == l,
        c.layout is None ==> s.layout == Layout::Folders,
        s.manifest_link@ == match c.manifest {
            Some(l) => l.text@,
            None => "THIRD-PARTY.md"@,
        },
        s.licenses_link@ == match c.licenses_dir {
            Some(l) => l.text@,
            None => "LICENSES"@,
        },
        s.notices_link@ == match c.notices_dir {
            Some(l) => l.text@,
            None => "NOTICES"@,
        },
        s.flat_link@ == match c.flat_file {
            Some(l) => l.text@,
            None => "THIRD-PARTY-NOTICES"@,
        },
        s.manifest@ == under(root, s.manifest_link@),
        s.licenses_dir@ == under(root, s.licenses_link@),
        s.notices_dir@ == under(root, s.notices_link@),
        s.flat_file@ == under(root, s.flat_link@),
{
}

// ---------------------------------------------------------------- paths

/// A path leads out of the project when it is absolute, goes up anywhere, or names nothing.
pub open spec fn leads_out(l: LinkView) -> bool {
    ||| l.absolute
    ||| exists|i: int| 0 <= i < l.parts.len() && #[trigger] l.parts[i] == Part::Up
    ||| forall|i: int| 0 <= i < l.parts.len() ==> #[trigger] l.parts[i] != Part::Name
}

proof fn inside_is_not_out(l: LinkView)
    ensures
        is_inside(l.absolute, l.parts) <==> !leads_out(l),
{
    if l.parts.contains(Part::Up) {
        let i = choose|i: int| 0 <= i < l.parts.len() && l.parts[i] == Part::Up;
        assert(l.parts[i] == Part::Up);
    }
    if l.parts.contains(Part::Name) {
        let i = choose|i: int| 0 <= i < l.parts.len() && l.parts[i] == Part::Name;
        assert(l.parts[i] == Part::Name);
    }
}

proof fn defaults_stay_inside()
    ensures
        !leads_out(slash_link("THIRD-PARTY.md"@)),
        !leads_out(slash_link("LICENSES"@)),
        !leads_out(slash_link("NOTICES"@)),
        !leads_out(slash_link("THIRD-PARTY-NOTICES"@)),
{
    reveal_strlit("THIRD-PARTY.md");
    reveal_strlit("LICENSES");
    reveal_strlit("NOTICES");
    reveal_strlit("THIRD-PARTY-NOTICES");
    long_name_stays_inside("THIRD-PARTY.md"@);
    long_name_stays_inside("LICENSES"@);
    long_name_stays_inside("NOTICES"@);
    long_name_stays_inside("THIRD-PARTY-NOTICES"@);
}

proof fn long_name_stays_inside(name: Seq<char>)
    requires
        name.len() > 2,
        forall|i: int| 0 <= i < name.len() ==> name[i] != '/',
    ensures
        !leads_out(slash_link(name)),
{
    reveal_strlit(".");
    reveal_strlit("..");
    plain_name_stays_inside(name);
    components_tell(name);
    inside_is_not_out(slash_link(name));
}

proof fn outside_file_is_the_first(list: Seq<LicenseText>)
    ensures
        match outside_file(list) {
            Some(f) => exists|i: int|
                #![trigger list[i]]
                0 <= i < list.len() && leads_out(list[i].file.deep_view()) && f == list[i].file.text@ && forall|j: int|
                    0 <= j < i ==> !leads_out((#[trigger] list[j]).file.deep_view()),
            None => forall|i: int| 0 <= i < list.len() ==> !leads_out((#[trigger] list[i]).file.deep_view()),
        },
    decreases list.len(),
{
    if list.len() > 0 {
        inside_is_not_out(list[0].file.deep_view());
        if !leads_out(list[0].file.deep_view()) {
            let rest = list.drop_first();
            outside_file_is_the_first(rest);
            match outside_file(rest) {
                Some(f) => {
                    let i = choose|i: int|
                        #![trigger rest[i]]
                        0 <= i < rest.len() && leads_out(rest[i].file.deep_view()) && f == rest[i].file.text@
                            && forall|j: int| 0 <= j < i ==> !leads_out((#[trigger] rest[j]).file.deep_view());
                    assert(list[i + 1] == rest[i]);
                    assert forall|j: int| 0 <= j < i + 1 implies !leads_out((#[trigger] list[j]).file.deep_view()) by {
                        if j > 0 {
                            assert(list[j] == rest[j - 1]);
                        }
                    }
                },
                None => {
                    assert forall|i: int| 0 <= i < list.len() implies !leads_out(
                        (#[trigger] list[i]).file.deep_view(),
                    ) by {
                        if i > 0 {
                            assert(list[i] == rest[i - 1]);
                        }
                    }
                },
            }
        } else {
            assert(list[0].file.text@ == outside_file(list)->0);
        }
    }
}

/// The configuration is refused exactly when a path that it gives leads out of the project.
pub proof fn paths_must_stay_inside(c: Config)
    ensures
        path_error(c) is Some <==> {
            ||| c.manifest matches Some(l) && leads_out(l.deep_view())
            ||| c.licenses_dir matches Some(l) && leads_out(l.deep_view())
            ||| c.notices_dir matches Some(l) && leads_out(l.deep_view())
            ||| c.flat_file matches Some(l) && leads_out(l.deep_view())
            ||| c.license_text matches Some(v) && exists|i: int|
                0 <= i < v@.len() && leads_out((#[trigger] v@[i]).file.deep_view())
        },
{
    defaults_stay_inside();
    inside_is_not_out(or_link(c.manifest, "THIRD-PARTY.md"@));
    inside_is_not_out(or_link(c.licenses_dir, "LICENSES"@));
    inside_is_not_out(or_link(c.notices_dir, "NOTICES"@));
    inside_is_not_out(or_link(c.flat_file, "THIRD-PARTY-NOTICES"@));
    outside_file_is_the_first(listed(c.license_text));
}

/// The message names the first field whose path leads out, and the path.
pub proof fn refusal_names_the_field(c: Config)
    ensures
        c.manifest matches Some(l) && leads_out(l.deep_view()) ==> path_error(c) == Some(
            "tribute.toml: "@ + "manifest"@ + " must be a relative path inside the project (got '"@
                + c.manifest->0.text@ + "')"@,
        ),
        c.manifest is None && (c.licenses_dir matches Some(l) && leads_out(l.deep_view())) ==> path_error(c) == Some(
            "tribute.toml: "@ + "licenses-dir"@ + " must be a relative path inside the project (got '"@
                + c.licenses_dir->0.text@ + "')"@,
        ),
        c.manifest is None && c.licenses_dir is None && (c.notices_dir matches Some(l) && leads_out(l.deep_view()))
            ==> path_error(c) == Some(
            "tribute.toml: "@ + "notices-dir"@ + " must be a relative path inside the project (got '"@
                + c.notices_dir->0.text@ + "')"@,
        ),
        c.manifest is None && c.licenses_dir is None && c.notices_dir is None && (c.flat_file matches Some(l)
            && leads_out(l.deep_view())) ==> path_error(c) == Some(
            "tribute.toml: "@ + "flat-file"@ + " must be a relative path inside the project (got '"@
                + c.flat_file->0.text@ + "')"@,
        ),
        c.manifest is None && c.licenses_dir is None && c.notices_dir is None && c.flat_file is None && (
        c.license_text matches Some(v) && v@.len() > 0 && leads_out(v@[0].file.deep_view())) ==> path_error(c) == Some(
            "tribute.toml: "@ + "license-text file"@ + " must be a relative path inside the project (got '"@
                + c.license_text->0@[0].file.text@ + "')"@,
        ),
{
    defaults_stay_inside();
    inside_is_not_out(or_link(c.manifest, "THIRD-PARTY.md"@));
    inside_is_not_out(or_link(c.licenses_dir, "LICENSES"@));
    inside_is_not_out(or_link(c.notices_dir, "NOTICES"@));
    inside_is_not_out(or_link(c.flat_file, "THIRD-PARTY-NOTICES"@));
    if let Some(v) = c.license_text {
        if v@.len() > 0 {
            inside_is_not_out(v@[0].file.deep_view());
        }
    }
}

// ---------------------------------------------------------------- deny.toml

/// The policy of a deny.toml is refused beside a list of one's own, and where it has no
/// list; otherwise it is taken.
pub proof fn deny_file_needs_a_list(explicit: bool, path: Seq<char>, file: DenyFile)
    ensures
        deny_error(explicit, path, file) is None <==> !explicit && (file matches DenyFile::Parsed(c)
            && c.licenses is Some && c.licenses->0.allow is Some),
        explicit ==> deny_error(explicit, path, file) == Some(
            "tribute.toml sets `accepted` and --from-deny is given; keep one source"@,
        ),
        !explicit ==> (file matches DenyFile::Failed(m) ==> deny_error(explicit, path, file) == Some(
            path + ": "@ + m@,
        )),
        !explicit ==> (file matches DenyFile::Parsed(c) && c.licenses is None ==> deny_error(explicit, path, file)
            == Some(path + ": no [licenses] section"@)),
        !explicit ==> (file matches DenyFile::Parsed(c) && c.licenses is Some && c.licenses->0.allow is None
            ==> deny_error(explicit, path, file) == Some(path + ": no [licenses] allow list"@)),
{
}

/// From a deny.toml come its list and its exceptions, all of them and in order.
pub proof fn deny_file_gives_list_and_exceptions(file: DenyFile)
    ensures
        file matches DenyFile::Parsed(c) ==> (c.licenses matches Some(l) ==> {
            &&& deny_allow(file) == l.allow
            &&& l.exceptions matches Some(v) ==> deny_exceptions(file) == v.deep_view()
            &&& l.exceptions is None ==> deny_exceptions(file).len() == 0
        }),
{
}

// ---------------------------------------------------------------- warnings

/// An accepted entry is warned of exactly when its license is not on the SPDX list and no
/// reference of one's own, or its exception is not on the list.
pub proof fn unknown_ids_are_warned_of(kind: Seq<char>, a: AcceptView, license_known: bool, exception_known: bool, w: Seq<char>)
    ensures
        unknown_ids(kind, a, license_known, exception_known).contains(w) <==> {
            ||| !license_known && !starts(a.license, "LicenseRef-"@) && w == "cargo-tribute: warning: "@ + kind
                + " license '"@ + a.license + "' is not a known SPDX id"@
            ||| !exception_known && (a.exception matches Some(e) && w == "cargo-tribute: warning: "@ + kind
                + " exception '"@ + e + "' is not a known SPDX id"@)
        },
        !license_known && !starts(a.license, "LicenseRef-"@) && a.exception is Some && !exception_known
            ==> unknown_ids(kind, a, license_known, exception_known).len() == 2,
{
    let first = if !starts(a.license, "LicenseRef-"@) && !license_known {
        seq![unknown_id(kind, " license '"@, a.license)]
    } else {
        Seq::empty()
    };
    assert(first.contains(w) <==> first.len() == 1 && first[0] == w);
    let all = unknown_ids(kind, a, license_known, exception_known);
    if let Some(e) = a.exception {
        if !exception_known {
            let m = unknown_id(kind, " exception '"@, e);
            assert(all[first.len() as int] == m);
            if first.len() == 1 {
                assert(all[0] == first[0]);
            }
        }
    }
}

/// The warnings on a list of accepted entries are those on each of them, in order.
pub proof fn each_entry_is_looked_up(kind: Seq<char>, a: Seq<AcceptView>, b: Seq<AcceptView>, x: AcceptView)
    ensures
        unknown_in(kind, a + b) == unknown_in(kind, a) + unknown_in(kind, b),
        unknown_in(kind, seq![x]) == unknown_ids(
            kind,
            x,
            spdx_license_text(x.license) is Some,
            x.exception is Some && spdx_exception_text(x.exception->0) is Some,
        ),
        unknown_in(kind, Seq::empty()) == Seq::<Seq<char>>::empty(),
    decreases b.len(),
{
    if b.len() == 0 {
        assert(a + b =~= a);
        assert(unknown_in(kind, a) + unknown_in(kind, b) =~= unknown_in(kind, a));
    } else {
        each_entry_is_looked_up(kind, a, b.drop_last(), x);
        assert((a + b).drop_last() =~= a + b.drop_last());
        assert(unknown_in(kind, a + b) =~= unknown_in(kind, a) + unknown_in(kind, b));
    }
    reveal_with_fuel(unknown_in, 2);
    assert(seq![x].drop_last() =~= Seq::<AcceptView>::empty());
    assert(unknown_in(kind, seq![x]) =~= unknown_ids(
        kind,
        x,
        spdx_license_text(x.license) is Some,
        x.exception is Some && spdx_exception_text(x.exception->0) is Some,
    ));
}

/// What the exceptions allow is looked up too, entry by entry, in order.
pub proof fn allowed_entries_are_looked_up(a: Seq<ExceptionView>, b: Seq<ExceptionView>, x: ExceptionView)
    ensures
        unknown_in_exceptions(a + b) == unknown_in_exceptions(a) + unknown_in_exceptions(b),
        unknown_in_exceptions(seq![x]) == unknown_in(
            "exception-allowed"@,
            Seq::new(x.allow.len(), |i: int| accept_of(x.allow[i])),
        ),
        unknown_in_exceptions(Seq::empty()) == Seq::<Seq<char>>::empty(),
    decreases b.len(),
{
    if b.len() == 0 {
        assert(a + b =~= a);
        assert(unknown_in_exceptions(a) + unknown_in_exceptions(b) =~= unknown_in_exceptions(a));
    } else {
        allowed_entries_are_looked_up(a, b.drop_last(), x);
        assert((a + b).drop_last() =~= a + b.drop_last());
        assert(unknown_in_exceptions(a + b) =~= unknown_in_exceptions(a) + unknown_in_exceptions(b));
    }
    reveal_with_fuel(unknown_in_exceptions, 2);
    assert(seq![x].drop_last() =~= Seq::<ExceptionView>::empty());
    assert(accepts_of(x.allow) =~= Seq::new(x.allow.len(), |i: int| accept_of(x.allow[i])));
    let u = unknown_in("exception-allowed"@, accepts_of(x.allow));
    assert(Seq::<Seq<char>>::empty() + u =~= u);
}

/// No package of the graph has that name and meets that requirement.
pub open spec fn matches_nothing(packages: Seq<PackageView>, name: Seq<char>, req: Option<Seq<char>>) -> bool {
    forall|i: int|
        0 <= i < packages.len() ==> (#[trigger] packages[i]).name != name || (req matches Some(v) && semver_matches(
            v,
            packages[i].version,
        ) != Some(true))
}

/// A clarification is warned of exactly when no package of the graph has its name and meets
/// its requirement; the warning names both.
pub proof fn idle_clarification_is_warned_of(packages: Seq<PackageView>, a: Seq<ClarifyView>, b: Seq<ClarifyView>, c: ClarifyView)
    ensures
        unmatched_clarify(packages, a + b) == unmatched_clarify(packages, a) + unmatched_clarify(packages, b),
        unmatched_clarify(packages, seq![c]) == if matches_nothing(packages, c.name, c.version) {
            seq![
                "cargo-tribute: warning: "@ + "clarify"@ + " for '"@ + c.name + (match c.version {
                    Some(v) => " "@ + v,
                    None => Seq::empty(),
                }) + "' matched no dependency"@,
            ]
        } else {
            Seq::empty()
        },
        unmatched_clarify(packages, Seq::empty()) == Seq::<Seq<char>>::empty(),
    decreases b.len(),
{
    if b.len() == 0 {
        assert(a + b =~= a);
        assert(unmatched_clarify(packages, a) + unmatched_clarify(packages, b) =~= unmatched_clarify(packages, a));
    } else {
        idle_clarification_is_warned_of(packages, a, b.drop_last(), c);
        assert((a + b).drop_last() =~= a + b.drop_last());
        assert(unmatched_clarify(packages, a + b) =~= unmatched_clarify(packages, a) + unmatched_clarify(packages, b));
    }
    reveal_with_fuel(unmatched_clarify, 2);
    assert(seq![c].drop_last() =~= Seq::<ClarifyView>::empty());
    unmatched_is_nothing(packages, c.name, c.version);
    let w = unmatched_warning("clarify"@, c.name, c.version);
    if matches_nothing(packages, c.name, c.version) {
        assert(unmatched_clarify(packages, seq![c]) =~= seq![w]);
    }
}

proof fn unmatched_is_nothing(packages: Seq<PackageView>, name: Seq<char>, req: Option<Seq<char>>)
    ensures
        is_unmatched(packages, name, req) <==> matches_nothing(packages, name, req),
{
}

/// An exception is warned of exactly when no package of the graph has its name and meets its
/// requirement; the warning names both.
pub proof fn idle_exception_is_warned_of(packages: Seq<PackageView>, a: Seq<ExceptionView>, b: Seq<ExceptionView>, x: ExceptionView)
    ensures
        unmatched_exceptions(packages, a + b) == unmatched_exceptions(packages, a) + unmatched_exceptions(packages, b),
        unmatched_exceptions(packages, seq![x]) == if matches_nothing(packages, x.name, x.version) {
            seq![
                "cargo-tribute: warning: "@ + "exception"@ + " for '"@ + x.name + (match x.version {
                    Some(v) => " "@ + v,
                    None => Seq::empty(),
                }) + "' matched no dependency"@,
            ]
        } else {
            Seq::empty()
        },
        unmatched_exceptions(packages, Seq::empty()) == Seq::<Seq<char>>::empty(),
    decreases b.len(),
{
    if b.len() == 0 {
        assert(a + b =~= a);
        assert(unmatched_exceptions(packages, a) + unmatched_exceptions(packages, b) =~= unmatched_exceptions(
            packages,
            a,
        ));
    } else {
        idle_exception_is_warned_of(packages, a, b.drop_last(), x);
        assert((a + b).drop_last() =~= a + b.drop_last());
        assert(unmatched_exceptions(packages, a + b) =~= unmatched_exceptions(packages, a) + unmatched_exceptions(
            packages,
            b,
        ));
    }
    reveal_with_fuel(unmatched_exceptions, 2);
    assert(seq![x].drop_last() =~= Seq::<ExceptionView>::empty());
    unmatched_is_nothing(packages, x.name, x.version);
    let w = unmatched_warning("exception"@, x.name, x.version);
    if matches_nothing(packages, x.name, x.version) {
        assert(unmatched_exceptions(packages, seq![x]) =~= seq![w]);
    }
}

/// Some license that a package or an extra entry refers to, with its exception, is one that
/// the entry allows.
pub open spec fn is_referred_to<V>(js: Seq<(V, JudgementView)>, a: AcceptView) -> bool {
    exists|i: int, k: int|
        0 <= i < js.len() && 0 <= k < js[i].1.terms.len() && {
            let t = #[trigger] js[i].1.terms[k];
            t.0 == a.license && (a.exception is None || t.1 == a.exception)
        }
}

/// An accepted entry is warned of, as it is written, exactly when neither a package nor an
/// extra entry refers to what it allows.
pub proof fn idle_license_is_warned_of(
    a: Seq<AcceptView>,
    b: Seq<AcceptView>,
    x: AcceptView,
    js: Seq<(PackageView, JudgementView)>,
    xs: Seq<(ExtraView, JudgementView)>,
)
    ensures
        unused_accepted(a + b, js, xs) == unused_accepted(a, js, xs) + unused_accepted(b, js, xs),
        unused_accepted(seq![x], js, xs) == if is_referred_to(js, x) || is_referred_to(xs, x) {
            Seq::empty()
        } else {
            seq!["cargo-tribute: warning: accepted license '"@ + x.raw + "' matched no dependency"@]
        },
        unused_accepted(Seq::empty(), js, xs) == Seq::<Seq<char>>::empty(),
    decreases b.len(),
{
    if b.len() == 0 {
        assert(a + b =~= a);
        assert(unused_accepted(a, js, xs) + unused_accepted(b, js, xs) =~= unused_accepted(a, js, xs));
    } else {
        idle_license_is_warned_of(a, b.drop_last(), x, js, xs);
        assert((a + b).drop_last() =~= a + b.drop_last());
        assert(unused_accepted(a + b, js, xs) =~= unused_accepted(a, js, xs) + unused_accepted(b, js, xs));
    }
    reveal_with_fuel(unused_accepted, 2);
    assert(seq![x].drop_last() =~= Seq::<AcceptView>::empty());
    refers_is_referred_to(js, x);
    refers_is_referred_to(xs, x);
    if !is_referred_to(js, x) && !is_referred_to(xs, x) {
        assert(unused_accepted(seq![x], js, xs) =~= seq![unused_warning(x.raw)]);
    }
}

proof fn refers_is_referred_to<V>(js: Seq<(V, JudgementView)>, a: AcceptView)
    ensures
        refers(js, a) <==> is_referred_to(js, a),
{
    if refers(js, a) {
        let (i, k) = choose|i: int, k: int|
            0 <= i < js.len() && 0 <= k < js[i].1.terms.len() && allowed_by(
                a,
                (#[trigger] js[i].1.terms[k]).0,
                js[i].1.terms[k].1,
            );
        assert(js[i].1.terms[k].0 == a.license);
    }
    if is_referred_to(js, a) {
        let (i, k) = choose|i: int, k: int|
            0 <= i < js.len() && 0 <= k < js[i].1.terms.len() && {
                let t = #[trigger] js[i].1.terms[k];
                t.0 == a.license && (a.exception is None || t.1 == a.exception)
            };
        assert(allowed_by(a, js[i].1.terms[k].0, js[i].1.terms[k].1));
    }
}

/// A local text is warned of exactly when its id is not in use.
pub proof fn idle_text_is_warned_of(a: Seq<LicenseTextView>, b: Seq<LicenseTextView>, x: LicenseTextView, used: Seq<Seq<char>>)
    ensures
        unused_texts(a + b, used) == unused_texts(a, used) + unused_texts(b, used),
        unused_texts(seq![x], used) == if used.contains(x.id) {
            Seq::empty()
        } else {
            seq!["cargo-tribute: warning: license-text for '"@ + x.id + "' matched no dependency"@]
        },
        unused_texts(Seq::empty(), used) == Seq::<Seq<char>>::empty(),
    decreases b.len(),
{
    if b.len() == 0 {
        assert(a + b =~= a);
        assert(unused_texts(a, used) + unused_texts(b, used) =~= unused_texts(a, used));
    } else {
        idle_text_is_warned_of(a, b.drop_last(), x, used);
        assert((a + b).drop_last() =~= a + b.drop_last());
        assert(unused_texts(a + b, used) =~= unused_texts(a, used) + unused_texts(b, used));
    }
    reveal_with_fuel(unused_texts, 2);
    assert(seq![x].drop_last() =~= Seq::<LicenseTextView>::empty());
    if !used.contains(x.id) {
        assert(unused_texts(seq![x], used) =~= seq![unused_text_warning(x.id)]);
    }
}

} // verus!
