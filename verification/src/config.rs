//! The accepted-license policy, per-crate overrides, and output paths.

use vstd::prelude::*;
use vstd::string::*;
use crate::graph::Walk;
use crate::paths::{components_tell, is_inside, link_of, not_inside, place_under, plain_name_stays_inside, relative_inside, slash_link, under, Link, LinkView};
use crate::policy::{exception_text, license_text, spdx_exception_text, spdx_license_text};
use crate::scan::{find, first_at, first_from_is_least, has_prefix, starts, trim, trim_range, trimmed, Class};
use crate::text::{cat2, cat3, cat5, chars_of, owned, same, same_option};
use crate::versions::{requirement_met, semver_matches};

verus! {

/// An accepted-list entry: a bare `MIT` allows the license with or without an
/// exception; `GPL-2.0-only WITH Classpath-exception-2.0` only that exact pairing.
pub struct Accept {
    pub raw: String,
    pub license: String,
    pub exception: Option<String>,
}

/// What an `Accept` holds.
pub struct AcceptView {
    pub raw: Seq<char>,
    pub license: Seq<char>,
    pub exception: Option<Seq<char>>,
}

impl DeepView for Accept {
    type V = AcceptView;

    open spec fn deep_view(&self) -> AcceptView {
        AcceptView {
            raw: self.raw@,
            license: self.license@,
            exception: self.exception.deep_view(),
        }
    }
}

impl Clone for Accept {
    fn clone(&self) -> (r: Self)
        ensures
            r.deep_view() == self.deep_view(),
    {
        Accept {
            raw: self.raw.clone(),
            license: self.license.clone(),
            exception: self.exception.clone(),
        }
    }
}

/// An entry read from its text: what stands before the first ` WITH ` is the license,
/// what stands behind it the exception, both trimmed.
pub open spec fn accept_of(s: Seq<char>) -> AcceptView {
    match first_at(s, " WITH "@) {
        Some(i) => AcceptView {
            raw: s,
            license: trimmed(s.take(i)),
            exception: Some(trimmed(s.skip(i + 6))),
        },
        None => AcceptView { raw: s, license: trimmed(s), exception: None },
    }
}

/// Reads an accepted-list entry.
pub fn parse_accept(s: &str) -> (r: Accept)
    ensures
        r.deep_view() == accept_of(s@),
{
    let v = chars_of(s);
    let n: usize = v.len();
    let with = chars_of(" WITH ");
    proof {
        reveal_strlit(" WITH ");
        first_from_is_least(s@, " WITH "@, 0);
    }
    match find(&v, &with) {
        Some(i) => {
            proof {
                assert(s@.subrange(0, i as int) =~= s@.take(i as int));
                assert(s@.subrange(i + 6, s@.len() as int) =~= s@.skip(i + 6));
            }
            Accept {
                raw: owned(s),
                license: trim_range(&v, 0, i, Class::Space),
                exception: Some(trim_range(&v, i + 6, n, Class::Space)),
            }
        },
        None => Accept { raw: owned(s), license: trim(s), exception: None },
    }
}

/// The entry allows a license, given with the exception behind its `WITH`.
pub open spec fn allowed_by(a: AcceptView, license: Seq<char>, exception: Option<Seq<char>>) -> bool {
    a.license == license && (a.exception is Some ==> a.exception == exception)
}

impl Accept {
    /// Does this entry allow `license` (optionally `WITH exception`)?
    pub fn allows(&self, license: &str, exception: Option<&str>) -> (r: bool)
        ensures
            r == allowed_by(self.deep_view(), license@, exception.deep_view()),
    {
        same(self.license.as_str(), license) && match &self.exception {
            None => true,
            Some(e) => same_option(Some(e.as_str()), exception),
        }
    }
}


// ---------------------------------------------------------------- overrides

/// Overrides a crate's license when its `license` field is missing, wrong, or not SPDX.
/// Without a `version` it matches any.
pub struct Clarify {
    pub name: String,
    pub version: Option<String>,
    pub expression: String,
}

/// What a `Clarify` holds.
pub struct ClarifyView {
    pub name: Seq<char>,
    pub version: Option<Seq<char>>,
    pub expression: Seq<char>,
}

impl DeepView for Clarify {
    type V = ClarifyView;

    open spec fn deep_view(&self) -> ClarifyView {
        ClarifyView {
            name: self.name@,
            version: self.version.deep_view(),
            expression: self.expression@,
        }
    }
}

/// Allows extra licenses for one crate only, without widening the accepted set. Without a
/// `version` it matches any.
pub struct Exception {
    pub name: String,
    pub version: Option<String>,
    pub allow: Vec<String>,
}

/// What an `Exception` holds.
pub struct ExceptionView {
    pub name: Seq<char>,
    pub version: Option<Seq<char>>,
    pub allow: Seq<Seq<char>>,
}

impl DeepView for Exception {
    type V = ExceptionView;

    open spec fn deep_view(&self) -> ExceptionView {
        ExceptionView {
            name: self.name@,
            version: self.version.deep_view(),
            allow: self.allow.deep_view(),
        }
    }
}

/// Attributes third-party code that the crate graph cannot see (vendored C sources, a
/// bundled font); its expression goes through the same policy.
pub struct Extra {
    pub name: String,
    pub expression: String,
    pub url: Option<String>,
    pub copyright: Option<String>,
    /// free text, reproduced in the notices file
    pub notes: Option<String>,
}

/// What an `Extra` holds.
pub struct ExtraView {
    pub name: Seq<char>,
    pub expression: Seq<char>,
    pub url: Option<Seq<char>>,
    pub copyright: Option<Seq<char>>,
    pub notes: Option<Seq<char>>,
}

impl DeepView for Extra {
    type V = ExtraView;

    open spec fn deep_view(&self) -> ExtraView {
        ExtraView {
            name: self.name@,
            expression: self.expression@,
            url: self.url.deep_view(),
            copyright: self.copyright.deep_view(),
            notes: self.notes.deep_view(),
        }
    }
}

/// A local text file for a license id outside the SPDX corpus (`LicenseRef-<id>`).
pub struct LicenseText {
    pub id: String,
    pub file: Link,
}

/// What a `LicenseText` holds.
pub struct LicenseTextView {
    pub id: Seq<char>,
    pub file: LinkView,
}

impl DeepView for LicenseText {
    type V = LicenseTextView;

    open spec fn deep_view(&self) -> LicenseTextView {
        LicenseTextView { id: self.id@, file: self.file.deep_view() }
    }
}

/// An entry for a crate name, with an optional version requirement, applies to a package.
pub open spec fn entry_applies(
    name: Seq<char>,
    req: Option<Seq<char>>,
    pkg: Seq<char>,
    version: Seq<char>,
) -> bool {
    name == pkg && (req matches Some(r) ==> semver_matches(r, version) == Some(true))
}

/// An entry applies: the name is equal, and the requirement, if the entry gives one, is met.
pub fn applies_given(name: &str, pkg: &str, requirement: Option<bool>) -> (r: bool)
    ensures
        r == (name@ == pkg@ && requirement != Some(false)),
{
    same(name, pkg) && match requirement {
        None => true,
        Some(met) => met,
    }
}

/// A clarify/exception entry applies to a crate: the name is equal, and a version, if the
/// entry gives one, is a semver requirement that the crate satisfies (so `1.0` matches
/// `1.0.0`, like Cargo).
pub fn policy_matches(name: &str, version_req: Option<&str>, pkg: &str, version: &str) -> (r: bool)
    ensures
        r == entry_applies(name@, version_req.deep_view(), pkg@, version@),
{
    let met = match version_req {
        None => None,
        // nothing meets a requirement that is malformed
        Some(req) => Some(on(requirement_met(req, version))),
    };
    applies_given(name, pkg, met)
}

/// An optional text, borrowed.
pub fn borrowed(o: &Option<String>) -> (r: Option<&str>)
    ensures
        r.deep_view() == o.deep_view(),
{
    match o {
        Some(s) => Some(s.as_str()),
        None => None,
    }
}

/// The expression of the first clarify entry that applies to a package.
pub open spec fn clarified(
    clarify: Seq<ClarifyView>,
    name: Seq<char>,
    version: Seq<char>,
) -> Option<Seq<char>>
    decreases clarify.len(),
{
    if clarify.len() == 0 {
        None
    } else if entry_applies(clarify[0].name, clarify[0].version, name, version) {
        Some(clarify[0].expression)
    } else {
        clarified(clarify.drop_first(), name, version)
    }
}

/// The clarify expression that overrides a crate's declared license: that of the first
/// entry that applies.
pub fn clarify_expr<'a>(clarify: &'a Vec<Clarify>, name: &str, version: &str) -> (r: Option<&'a str>)
    ensures
        r.deep_view() == clarified(clarify.deep_view(), name@, version@),
{
    let mut i: usize = 0;
    let ghost all = clarify.deep_view();
    assert(all.skip(0) =~= all);
    while i < clarify.len()
        invariant
            all == clarify.deep_view(),
            i <= clarify@.len(),
            clarified(all, name@, version@) == clarified(all.skip(i as int), name@, version@),
        decreases clarify.len() - i,
    {
        let ghost t = all.skip(i as int);
        assert(t[0] == clarify@[i as int].deep_view());
        assert(t.drop_first() =~= all.skip(i + 1));
        let c = &clarify[i];
        if policy_matches(c.name.as_str(), borrowed(&c.version), name, version) {
            return Some(c.expression.as_str());
        }
        i += 1;
    }
    None
}

// ---------------------------------------------------------------- unknown ids

/// The warning for a policy entry that names something outside the SPDX list.
pub open spec fn unknown_id(kind: Seq<char>, what: Seq<char>, id: Seq<char>) -> Seq<char> {
    "cargo-tribute: warning: "@ + kind + what + id + "' is not a known SPDX id"@
}

/// The warnings for a policy entry, given which of its ids the SPDX list knows. A
/// `LicenseRef-` name is outside the list by design and never warns.
pub open spec fn unknown_ids(
    kind: Seq<char>,
    a: AcceptView,
    license_known: bool,
    exception_known: bool,
) -> Seq<Seq<char>> {
    let first = if !starts(a.license, "LicenseRef-"@) && !license_known {
        seq![unknown_id(kind, " license '"@, a.license)]
    } else {
        Seq::empty()
    };
    match a.exception {
        Some(e) => if exception_known {
            first
        } else {
            first.push(unknown_id(kind, " exception '"@, e))
        },
        None => first,
    }
}

/// The warnings for a policy entry, given which of its ids the SPDX list knows.
pub fn warn_given(kind: &str, a: &Accept, license_known: bool, exception_known: bool) -> (r: Vec<
    String,
>)
    ensures
        r.deep_view() == unknown_ids(kind@, a.deep_view(), license_known, exception_known),
{
    let mut out: Vec<String> = Vec::new();
    if !has_prefix(a.license.as_str(), "LicenseRef-") && !license_known {
        out.push(
            cat5(
                "cargo-tribute: warning: ",
                kind,
                " license '",
                a.license.as_str(),
                "' is not a known SPDX id",
            ),
        );
    }
    let ghost first = out.deep_view();
    if let Some(e) = &a.exception {
        if !exception_known {
            out.push(
                cat5(
                    "cargo-tribute: warning: ",
                    kind,
                    " exception '",
                    e.as_str(),
                    "' is not a known SPDX id",
                ),
            );
        }
    }
    assert(out.deep_view() =~= unknown_ids(
        kind@,
        a.deep_view(),
        license_known,
        exception_known,
    ));
    out
}

/// The warnings for a policy entry whose license or exception is not a known SPDX id.
pub fn warn_unknown_ids(kind: &str, a: &Accept) -> (r: Vec<String>)
    ensures
        r.deep_view() == unknown_ids(
            kind@,
            a.deep_view(),
            spdx_license_text(a.license@) is Some,
            a.exception matches Some(e) && spdx_exception_text(e@) is Some,
        ),
{
    let license_known = license_text(a.license.as_str()).is_some();
    let exception_known = match &a.exception {
        Some(e) => exception_text(e.as_str()).is_some(),
        None => false,
    };
    warn_given(kind, a, license_known, exception_known)
}

// ---------------------------------------------------------------- settings

/// The licenses that are allowed unless the configuration says otherwise; also the order
/// of preference when an `A OR B` can pick either.
pub const DEFAULT_ACCEPTED: [&'static str; 9] = [
    "MIT",
    "Apache-2.0",
    "BSD-2-Clause",
    "BSD-3-Clause",
    "ISC",
    "0BSD",
    "Zlib",
    "Unlicense",
    "Unicode-3.0",
];

/// Which artifacts a run writes and checks.
#[derive(Clone, Copy, PartialEq, Eq, Structural)]
pub enum Layout {
    /// the license and notice folders and the manifest
    Folders,
    /// one all-in-one notices file
    Flat,
    /// both of these
    Both,
}

/// The fields of the configuration file, all optional.
pub struct Config {
    pub accepted: Option<Vec<String>>,
    pub include_dev: Option<bool>,
    pub include_build: Option<bool>,
    pub skip_private: Option<bool>,
    pub skip_proc_macros: Option<bool>,
    pub manifest: Option<Link>,
    pub licenses_dir: Option<Link>,
    pub notices_dir: Option<Link>,
    pub layout: Option<Layout>,
    pub flat_file: Option<Link>,
    pub clarify: Option<Vec<Clarify>>,
    pub exception: Option<Vec<Exception>>,
    pub extra: Option<Vec<Extra>>,
    pub license_text: Option<Vec<LicenseText>>,
}

/// How reading the configuration file went.
pub enum ConfigFile {
    /// it holds these fields
    Parsed(Config),
    /// it is no well-formed configuration; what is wrong with it
    Malformed(String),
    /// there is no such file
    Missing,
    /// it is there but cannot be read; why
    Unreadable(String),
}

/// The settings of a run.
pub struct Settings {
    pub accepted: Vec<Accept>,
    /// came from a configuration file, not from the built-in default
    pub accepted_explicit: bool,
    pub include_dev: bool,
    pub include_build: bool,
    /// skip dependencies that are not from crates.io
    pub skip_private: bool,
    /// skip proc-macro crates and their compile-time subtree
    pub skip_proc_macros: bool,
    pub clarify: Vec<Clarify>,
    pub exception: Vec<Exception>,
    pub extra: Vec<Extra>,
    pub license_text: Vec<LicenseText>,
    pub layout: Layout,
    /// output path of the manifest, under the project root
    pub manifest: String,
    /// its name relative to the root, for messages
    pub manifest_link: String,
    /// output folder for the license texts
    pub licenses_dir: String,
    pub licenses_link: String,
    /// output folder for NOTICE files
    pub notices_dir: String,
    pub notices_link: String,
    /// output path of the all-in-one notices file
    pub flat_file: String,
    pub flat_link: String,
}

impl Settings {
    /// Which dependencies are followed and attributed.
    pub fn walk(&self) -> (r: Walk)
        ensures
            r == (Walk {
                include_dev: self.include_dev,
                include_build: self.include_build,
                skip_private: self.skip_private,
                skip_proc_macros: self.skip_proc_macros,
            }),
    {
        Walk {
            include_dev: self.include_dev,
            include_build: self.include_build,
            skip_private: self.skip_private,
            skip_proc_macros: self.skip_proc_macros,
        }
    }
}

/// The path of an optional field, or its default.
pub open spec fn or_link(o: Option<Link>, default: Seq<char>) -> LinkView {
    match o {
        Some(l) => l.deep_view(),
        None => slash_link(default),
    }
}

fn link_or(o: Option<Link>, default: &str) -> (r: Link)
    ensures
        r.deep_view() == or_link(o, default@),
{
    match o {
        Some(l) => l,
        None => link_of(default),
    }
}

/// The value of an optional switch; off if it is not given.
pub open spec fn is_on(o: Option<bool>) -> bool {
    o == Some(true)
}

fn on(o: Option<bool>) -> (r: bool)
    ensures
        r == is_on(o),
{
    match o {
        Some(b) => b,
        None => false,
    }
}

/// The entries of an optional list.
pub open spec fn listed<T>(o: Option<Vec<T>>) -> Seq<T> {
    match o {
        Some(v) => v@,
        None => Seq::empty(),
    }
}

fn list_or_empty<T>(o: Option<Vec<T>>) -> (r: Vec<T>)
    ensures
        r@ == listed(o),
{
    match o {
        Some(v) => v,
        None => Vec::new(),
    }
}

/// The texts of the accepted list: what is configured, or the default.
pub open spec fn accepted_texts(o: Option<Vec<String>>) -> Seq<Seq<char>> {
    match o {
        Some(v) => v.deep_view(),
        None => Seq::new(9, |i: int| DEFAULT_ACCEPTED@[i]@),
    }
}

/// The entries read from their texts.
pub open spec fn accepts_of(texts: Seq<Seq<char>>) -> Seq<AcceptView> {
    texts.map_values(|s: Seq<char>| accept_of(s))
}

/// Reads the entries of an accepted list.
pub fn parse_accepts(texts: &Vec<String>) -> (r: Vec<Accept>)
    ensures
        r.deep_view() == accepts_of(texts.deep_view()),
{
    let mut out: Vec<Accept> = Vec::new();
    let mut i: usize = 0;
    let ghost all = texts.deep_view();
    while i < texts.len()
        invariant
            all == texts.deep_view(),
            i <= texts@.len(),
            out.deep_view() == accepts_of(all.take(i as int)),
        decreases texts.len() - i,
    {
        let ghost o = out.deep_view();
        out.push(parse_accept(texts[i].as_str()));
        assert(out.deep_view() =~= o.push(accept_of(all[i as int])));
        assert(accepts_of(all.take(i + 1)) =~= accepts_of(all.take(i as int)).push(
            accept_of(all[i as int]),
        ));
        i += 1;
    }
    assert(all.take(i as int) =~= all);
    out
}

/// The built-in accepted list.
pub fn default_accepted() -> (r: Vec<String>)
    ensures
        r.deep_view() == accepted_texts(None),
{
    let list = DEFAULT_ACCEPTED;
    let mut out: Vec<String> = Vec::new();
    let mut i: usize = 0;
    while i < 9
        invariant
            list == DEFAULT_ACCEPTED,
            i <= 9,
            out.deep_view() == accepted_texts(None).take(i as int),
        decreases 9 - i,
    {
        let ghost o = out.deep_view();
        out.push(owned(list[i]));
        assert(out.deep_view() =~= o.push(DEFAULT_ACCEPTED@[i as int]@));
        assert(accepted_texts(None).take(i + 1) =~= accepted_texts(None).take(i as int).push(
            DEFAULT_ACCEPTED@[i as int]@,
        ));
        i += 1;
    }
    assert(accepted_texts(None).take(9) =~= accepted_texts(None));
    out
}

/// The first license-text entry whose file does not stay inside the project.
pub open spec fn outside_file(list: Seq<LicenseText>) -> Option<Seq<char>>
    decreases list.len(),
{
    if list.len() == 0 {
        None
    } else if !is_inside(list[0].file.absolute, list[0].file.parts@) {
        Some(list[0].file.text@)
    } else {
        outside_file(list.drop_first())
    }
}

/// A path of the configuration does not stay inside the project.
pub open spec fn is_outside(l: LinkView) -> bool {
    !is_inside(l.absolute, l.parts)
}

/// The error that the paths of a configuration lead to, if there is one: an output path
/// or a license-text file that does not stay inside the project.
pub open spec fn path_error(c: Config) -> Option<Seq<char>> {
    if is_outside(or_link(c.manifest, "THIRD-PARTY.md"@)) {
        Some(not_inside("manifest"@, or_link(c.manifest, "THIRD-PARTY.md"@).text))
    } else if is_outside(or_link(c.licenses_dir, "LICENSES"@)) {
        Some(not_inside("licenses-dir"@, or_link(c.licenses_dir, "LICENSES"@).text))
    } else if is_outside(or_link(c.notices_dir, "NOTICES"@)) {
        Some(not_inside("notices-dir"@, or_link(c.notices_dir, "NOTICES"@).text))
    } else if is_outside(or_link(c.flat_file, "THIRD-PARTY-NOTICES"@)) {
        Some(not_inside("flat-file"@, or_link(c.flat_file, "THIRD-PARTY-NOTICES"@).text))
    } else {
        match outside_file(listed(c.license_text)) {
            Some(f) => Some(not_inside("license-text file"@, f)),
            None => None,
        }
    }
}

/// The settings are those of a configuration under a project root.
pub open spec fn settings_of(s: Settings, root: Seq<char>, c: Config) -> bool {
    &&& s.accepted.deep_view() == accepts_of(accepted_texts(c.accepted))
    &&& s.accepted_explicit == c.accepted is Some
    &&& s.include_dev == is_on(c.include_dev)
    &&& s.include_build == is_on(c.include_build)
    &&& s.skip_private == is_on(c.skip_private)
    &&& s.skip_proc_macros == is_on(c.skip_proc_macros)
    &&& s.clarify@ == listed(c.clarify)
    &&& s.exception@ == listed(c.exception)
    &&& s.extra@ == listed(c.extra)
    &&& s.license_text@ == listed(c.license_text)
    &&& s.layout == match c.layout {
        Some(l) => l,
        None => Layout::Folders,
    }
    &&& s.manifest_link@ == or_link(c.manifest, "THIRD-PARTY.md"@).text
    &&& s.licenses_link@ == or_link(c.licenses_dir, "LICENSES"@).text
    &&& s.notices_link@ == or_link(c.notices_dir, "NOTICES"@).text
    &&& s.flat_link@ == or_link(c.flat_file, "THIRD-PARTY-NOTICES"@).text
    &&& s.manifest@ == under(root, s.manifest_link@)
    &&& s.licenses_dir@ == under(root, s.licenses_link@)
    &&& s.notices_dir@ == under(root, s.notices_link@)
    &&& s.flat_file@ == under(root, s.flat_link@)
}

/// A configuration in which no field is given.
pub open spec fn is_empty_config(c: Config) -> bool {
    &&& c.accepted is None
    &&& c.include_dev is None
    &&& c.include_build is None
    &&& c.skip_private is None
    &&& c.skip_proc_macros is None
    &&& c.manifest is None
    &&& c.licenses_dir is None
    &&& c.notices_dir is None
    &&& c.layout is None
    &&& c.flat_file is None
    &&& c.clarify is None
    &&& c.exception is None
    &&& c.extra is None
    &&& c.license_text is None
}

/// The default output paths are accepted: a configuration that gives none is no error.
pub proof fn default_paths_stay_inside(c: Config)
    requires
        is_empty_config(c),
    ensures
        path_error(c) is None,
{
    reveal_strlit(".");
    reveal_strlit("..");
    reveal_strlit("THIRD-PARTY.md");
    reveal_strlit("LICENSES");
    reveal_strlit("NOTICES");
    reveal_strlit("THIRD-PARTY-NOTICES");
    plain_name_stays_inside("THIRD-PARTY.md"@);
    components_tell("THIRD-PARTY.md"@);
    plain_name_stays_inside("LICENSES"@);
    components_tell("LICENSES"@);
    plain_name_stays_inside("NOTICES"@);
    components_tell("NOTICES"@);
    plain_name_stays_inside("THIRD-PARTY-NOTICES"@);
    components_tell("THIRD-PARTY-NOTICES"@);
}

impl Config {
    /// A configuration in which no field is given.
    pub fn empty() -> (r: Config)
        ensures
            is_empty_config(r),
    {
        Config {
            accepted: None,
            include_dev: None,
            include_build: None,
            skip_private: None,
            skip_proc_macros: None,
            manifest: None,
            licenses_dir: None,
            notices_dir: None,
            layout: None,
            flat_file: None,
            clarify: None,
            exception: None,
            extra: None,
            license_text: None,
        }
    }
}

/// Rejects a license-text file that does not stay inside the project, so that the output
/// cannot depend on files outside the tree.
pub fn check_license_texts(list: &Vec<LicenseText>) -> (r: Result<(), String>)
    ensures
        match r {
            Ok(()) => outside_file(list@) is None,
            Err(e) => outside_file(list@) matches Some(f) && e@ == not_inside(
                "license-text file"@,
                f,
            ),
        },
{
    let mut i: usize = 0;
    assert(list@.skip(0) =~= list@);
    while i < list.len()
        invariant
            i <= list@.len(),
            outside_file(list@) == outside_file(list@.skip(i as int)),
        decreases list.len() - i,
    {
        let ghost t = list@.skip(i as int);
        assert(t[0] == list@[i as int]);
        assert(t.drop_first() =~= list@.skip(i + 1));
        match relative_inside("license-text file", &list[i].file) {
            Ok(()) => {},
            Err(e) => return Err(e),
        }
        i += 1;
    }
    Ok(())
}

/// The settings that a configuration stands for under a project root.
pub fn settle(root: &str, cfg: Config) -> (r: Result<Settings, String>)
    ensures
        match r {
            Ok(s) => path_error(cfg) is None && settings_of(s, root@, cfg),
            Err(e) => path_error(cfg) == Some(e@),
        },
{
    let manifest_link = link_or(cfg.manifest, "THIRD-PARTY.md");
    let licenses_link = link_or(cfg.licenses_dir, "LICENSES");
    let notices_link = link_or(cfg.notices_dir, "NOTICES");
    let flat_link = link_or(cfg.flat_file, "THIRD-PARTY-NOTICES");
    match relative_inside("manifest", &manifest_link) {
        Ok(()) => {},
        Err(e) => return Err(e),
    }
    match relative_inside("licenses-dir", &licenses_link) {
        Ok(()) => {},
        Err(e) => return Err(e),
    }
    match relative_inside("notices-dir", &notices_link) {
        Ok(()) => {},
        Err(e) => return Err(e),
    }
    match relative_inside("flat-file", &flat_link) {
        Ok(()) => {},
        Err(e) => return Err(e),
    }
    let license_text = list_or_empty(cfg.license_text);
    match check_license_texts(&license_text) {
        Ok(()) => {},
        Err(e) => return Err(e),
    }
    let accepted_explicit = cfg.accepted.is_some();
    let texts = match cfg.accepted {
        Some(v) => v,
        None => default_accepted(),
    };
    let accepted = parse_accepts(&texts);
    let layout = match cfg.layout {
        Some(l) => l,
        None => Layout::Folders,
    };
    Ok(
        Settings {
            accepted,
            accepted_explicit,
            include_dev: on(cfg.include_dev),
            include_build: on(cfg.include_build),
            skip_private: on(cfg.skip_private),
            skip_proc_macros: on(cfg.skip_proc_macros),
            clarify: list_or_empty(cfg.clarify),
            exception: list_or_empty(cfg.exception),
            extra: list_or_empty(cfg.extra),
            license_text,
            layout,
            manifest: place_under(root, manifest_link.text.as_str()),
            licenses_dir: place_under(root, licenses_link.text.as_str()),
            notices_dir: place_under(root, notices_link.text.as_str()),
            flat_file: place_under(root, flat_link.text.as_str()),
            manifest_link: manifest_link.text,
            licenses_link: licenses_link.text,
            notices_link: notices_link.text,
            flat_link: flat_link.text,
        },
    )
}

/// The settings of the project at a root, from its configuration file (`path` is the
/// file's own path, for the message). Only a missing file falls back to the defaults; one
/// that is there but cannot be read or understood is an error.
pub fn load_settings(root: &str, path: &str, file: ConfigFile) -> (r: Result<Settings, String>)
    ensures
        match file {
            ConfigFile::Parsed(c) => match r {
                Ok(s) => path_error(c) is None && settings_of(s, root@, c),
                Err(e) => path_error(c) == Some(e@),
            },
            ConfigFile::Malformed(m) => r matches Err(e) && e@ == "tribute.toml: "@ + m@,
            ConfigFile::Missing => r matches Ok(s) && exists|none: Config| #[trigger]
                is_empty_config(none) && settings_of(s, root@, none),
            ConfigFile::Unreadable(m) => r matches Err(e) && e@ == path@ + ": "@ + m@,
        },
{
    match file {
        ConfigFile::Parsed(c) => settle(root, c),
        ConfigFile::Malformed(m) => Err(cat2("tribute.toml: ", m.as_str())),
        ConfigFile::Missing => {
            let c = Config::empty();
            let ghost cfg = c;
            proof {
                default_paths_stay_inside(cfg);
            }
            let r = settle(root, c);
            proof {
                assert(is_empty_config(cfg));
            }
            r
        },
        ConfigFile::Unreadable(m) => Err(cat3(path, ": ", m.as_str())),
    }
}

// ---------------------------------------------------------------- deny.toml

/// The part of a cargo-deny configuration that can be reused.
pub struct DenyConfig {
    pub licenses: Option<DenyLicenses>,
}

/// The `[licenses]` section of a cargo-deny configuration.
pub struct DenyLicenses {
    pub allow: Option<Vec<String>>,
    pub exceptions: Option<Vec<DenyException>>,
}

/// Extra licenses that cargo-deny allows for one crate.
pub struct DenyException {
    pub name: String,
    pub allow: Vec<String>,
    pub version: Option<String>,
}

impl DeepView for DenyException {
    type V = ExceptionView;

    open spec fn deep_view(&self) -> ExceptionView {
        ExceptionView {
            name: self.name@,
            version: self.version.deep_view(),
            allow: self.allow.deep_view(),
        }
    }
}

/// How reading a cargo-deny configuration went.
pub enum DenyFile {
    /// it holds these sections
    Parsed(DenyConfig),
    /// it cannot be read, or is no well-formed configuration; why
    Failed(String),
}

/// The allow list of a cargo-deny configuration.
pub open spec fn deny_allow(file: DenyFile) -> Option<Vec<String>> {
    match file {
        DenyFile::Parsed(c) => match c.licenses {
            Some(l) => l.allow,
            None => None,
        },
        DenyFile::Failed(_) => None,
    }
}

/// The per-crate exceptions of a cargo-deny configuration.
pub open spec fn deny_exceptions(file: DenyFile) -> Seq<ExceptionView> {
    match file {
        DenyFile::Parsed(c) => match c.licenses {
            Some(l) => match l.exceptions {
                Some(v) => v.deep_view(),
                None => Seq::empty(),
            },
            None => Seq::empty(),
        },
        DenyFile::Failed(_) => Seq::empty(),
    }
}

/// The error that taking the policy from a cargo-deny configuration leads to, if there is
/// one.
pub open spec fn deny_error(explicit: bool, path: Seq<char>, file: DenyFile) -> Option<Seq<char>> {
    if explicit {
        Some("tribute.toml sets `accepted` and --from-deny is given; keep one source"@)
    } else {
        match file {
            DenyFile::Failed(m) => Some(path + ": "@ + m@),
            DenyFile::Parsed(c) => match c.licenses {
                None => Some(path + ": no [licenses] section"@),
                Some(l) => match l.allow {
                    None => Some(path + ": no [licenses] allow list"@),
                    Some(_) => None,
                },
            },
        }
    }
}

/// Two settings agree on everything but the accepted list and the exceptions.
pub open spec fn same_but_policy(a: Settings, b: Settings) -> bool {
    a == (Settings {
        accepted: a.accepted,
        accepted_explicit: a.accepted_explicit,
        exception: a.exception,
        ..b
    })
}

/// Takes the accepted list and per-crate exceptions from a cargo-deny configuration, so
/// that the allow list is kept in one place. An error leaves the settings as they are.
pub fn apply_deny(set: &mut Settings, path: &str, file: DenyFile) -> (r: Result<(), String>)
    ensures
        match r {
            Ok(()) => {
                &&& deny_error(old(set).accepted_explicit, path@, file) is None
                &&& deny_allow(file) matches Some(allow) && final(set).accepted.deep_view()
                    == accepts_of(allow.deep_view())
                &&& final(set).accepted_explicit
                &&& final(set).exception.deep_view() == old(set).exception.deep_view()
                    + deny_exceptions(file)
                &&& same_but_policy(*final(set), *old(set))
            },
            Err(e) => deny_error(old(set).accepted_explicit, path@, file) == Some(e@) && *final(set)
                == *old(set),
        },
{
    if set.accepted_explicit {
        return Err(
            owned("tribute.toml sets `accepted` and --from-deny is given; keep one source"),
        );
    }
    let cfg = match file {
        DenyFile::Parsed(c) => c,
        DenyFile::Failed(m) => return Err(cat3(path, ": ", m.as_str())),
    };
    let lic = match cfg.licenses {
        Some(l) => l,
        None => return Err(cat2(path, ": no [licenses] section")),
    };
    let allow = match lic.allow {
        Some(a) => a,
        None => return Err(cat2(path, ": no [licenses] allow list")),
    };
    set.accepted = parse_accepts(&allow);
    set.accepted_explicit = true;
    let ghost was = set.exception.deep_view();
    let ghost before_push = *set;
    if let Some(more) = lic.exceptions {
        let ghost all = more.deep_view();
        let mut i: usize = 0;
        assert(was + all.take(0) =~= was);
        while i < more.len()
            invariant
                all == more.deep_view(),
                i <= more@.len(),
                set.exception.deep_view() == was + all.take(i as int),
                same_but_policy(*set, before_push),
                set.accepted == before_push.accepted,
                set.accepted_explicit == before_push.accepted_explicit,
            decreases more.len() - i,
        {
            let x = &more[i];
            let ghost o = set.exception.deep_view();
            let e = Exception {
                name: x.name.clone(),
                version: x.version.clone(),
                allow: x.allow.clone(),
            };
            assert(e.deep_view() == all[i as int]);
            set.exception.push(e);
            assert(set.exception.deep_view() =~= o.push(all[i as int]));
            assert(was + all.take(i + 1) =~= (was + all.take(i as int)).push(all[i as int]));
            i += 1;
        }
        assert(all.take(i as int) =~= all);
    } else {
        assert(was + Seq::<ExceptionView>::empty() =~= was);
    }
    Ok(())
}

} // verus!
