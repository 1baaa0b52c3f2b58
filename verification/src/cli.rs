//! The command line: what is asked for, and how a run ends.

use vstd::prelude::*;
use vstd::string::*;
use crate::scan::{contained_behind, contained_stays, contains, join, joined, lines, lines_of, occurs_at, run_len, run_len_is, starts, without_cr, Class};
use crate::text::{cat2, cat3, owned, same};

verus! {

/// The part of the help that explains exit codes and configuration.
pub const AFTER_HELP: &'static str = "\
EXIT CODES:
    1 license policy failed, 2 output out of date (--check), 3 anything else

CONFIG (tribute.toml in the project root, all optional):
    accepted = [\"MIT\", \"Apache-2.0\", ...]    # allowed licenses, or \"A WITH B\" pairings;
                                             # also the OR preference order
    include-dev = false                      # also attribute dev-dependencies
    include-build = false                    # also attribute build-dependencies
    skip-private = false                     # skip path/git/non-crates.io dependencies
    skip-proc-macros = false                 # skip proc-macro crates (compile-time only)
    manifest = \"THIRD-PARTY.md\"              # attribution manifest path
    licenses-dir = \"LICENSES\"                # folder for the canonical license texts
    notices-dir = \"NOTICES\"                  # folder for NOTICE files shipped by dependencies
    layout = \"folders\"                       # what a run writes and --check gates:
                                             # folders (default) = the three outputs above;
                                             # flat = one all-in-one THIRD-PARTY-NOTICES
                                             # file (the --format text document); both
    flat-file = \"THIRD-PARTY-NOTICES\"        # the flat file's path (layout flat/both)

    [[clarify]]                              # override a crate's license (missing/wrong/non-SPDX)
    name = \"ring\"
    version = \"0.17.8\"                       # optional semver req; omit to match any version
    expression = \"MIT AND ISC AND OpenSSL\"

    [[exception]]                            # allow extra licenses for one crate only
    name = \"unicode-ident\"
    allow = [\"Unicode-DFS-2016\"]

    [[extra]]                                # attribute non-crate code (vendored C, ...)
    name = \"zlib (bundled in libz-sys)\"
    expression = \"Zlib\"
    url = \"https://zlib.net\"                 # optional; copyright and notes (free text
                                             # for the notices file) are optional too

    [[license-text]]                         # local text for a LicenseRef-* id
    id = \"LicenseRef-weird\"
    file = \"licenses-extra/weird.txt\"
";

/// The configuration that `init` writes, before it is commented out: every field, with its
/// default or an example.
pub const INIT_TEMPLATE: [&'static str; 43] = [
    "cargo-tribute configuration; every field is optional, these are the defaults.",
    "",
    "allowed licenses, also the OR preference order; \"A WITH B\" pairings work too.",
    "accepted = [\"MIT\", \"Apache-2.0\", \"BSD-2-Clause\", \"BSD-3-Clause\", \"ISC\", \"0BSD\", \"Zlib\", \"Unlicense\", \"Unicode-3.0\"]",
    "",
    "include-dev = false           # also attribute dev-dependencies",
    "include-build = false         # also attribute build-dependencies",
    "skip-private = false          # skip path/git/non-crates.io dependencies",
    "skip-proc-macros = false      # skip proc-macro crates (compile-time only)",
    "manifest = \"THIRD-PARTY.md\"",
    "licenses-dir = \"LICENSES\"",
    "notices-dir = \"NOTICES\"",
    "",
    "what a run writes and --check gates: folders (default) for the three outputs",
    "above, flat for one all-in-one THIRD-PARTY-NOTICES file, or both:",
    "layout = \"folders\"",
    "flat-file = \"THIRD-PARTY-NOTICES\"",
    "",
    "override a crate's license (missing/wrong/non-SPDX):",
    "[[clarify]]",
    "name = \"ring\"",
    "version = \"0.17.8\"",
    "expression = \"MIT AND ISC AND OpenSSL\"",
    "",
    "allow extra licenses for one crate only:",
    "[[exception]]",
    "name = \"unicode-ident\"",
    "allow = [\"Unicode-DFS-2016\"]",
    "",
    "attribute non-crate code (vendored C, bundled assets); `notes` is free text",
    "reproduced in the notices file:",
    "[[extra]]",
    "name = \"zlib (bundled in libz-sys)\"",
    "expression = \"Zlib\"",
    "url = \"https://zlib.net\"",
    "notes = \"\"\"",
    "Vendored under third_party/zlib; local patches: none.",
    "\"\"\"",
    "",
    "local text for a LicenseRef-* id:",
    "[[license-text]]",
    "id = \"LicenseRef-weird\"",
    "file = \"licenses-extra/weird.txt\"",
];

/// The keys of the configuration.
pub const CONFIG_KEYS: [&'static str; 14] = [
    "accepted",
    "include-dev",
    "include-build",
    "skip-private",
    "skip-proc-macros",
    "layout",
    "flat-file",
    "manifest",
    "licenses-dir",
    "notices-dir",
    "[[clarify]]",
    "[[exception]]",
    "[[extra]]",
    "[[license-text]]",
];

/// A line as a comment; an empty one stays empty.
pub open spec fn as_comment(line: Seq<char>) -> Seq<char> {
    if line.len() == 0 {
        line
    } else {
        "# "@ + line
    }
}

/// Lines as comments, a line feed behind each.
pub open spec fn comments(lines: Seq<Seq<char>>) -> Seq<char>
    decreases lines.len(),
{
    if lines.len() == 0 {
        Seq::empty()
    } else {
        as_comment(lines[0]) + "\n"@ + comments(lines.drop_first())
    }
}

/// A text with each of its lines made a comment.
pub open spec fn commented(text: Seq<char>) -> Seq<char> {
    comments(lines_of(text))
}

/// Makes each line of a text a comment.
pub fn comment_out(text: &str) -> (r: String)
    ensures
        r@ == commented(text@),
{
    let all = lines(text);
    let ghost ls = all.deep_view();
    let mut out = String::new();
    let mut i: usize = 0;
    assert(ls.skip(0) =~= ls);
    assert(out@ + comments(ls) =~= comments(ls));
    while i < all.len()
        invariant
            ls == all.deep_view(),
            i <= all@.len(),
            comments(ls) == out@ + comments(ls.skip(i as int)),
        decreases all.len() - i,
    {
        let ghost o = out@;
        let line = all[i].as_str();
        let ghost rest = ls.skip(i + 1);
        assert(line@ == ls[i as int]);
        assert(ls.skip(i as int).drop_first() =~= rest);
        if !line.is_empty() {
            out.append("# ");
            out.append(line);
        }
        out.append("\n");
        assert(out@ =~= o + (as_comment(line@) + "\n"@));
        assert(o + (as_comment(line@) + "\n"@ + comments(rest)) =~= out@ + comments(rest));
        i += 1;
    }
    assert(out@ + comments(ls.skip(i as int)) =~= out@);
    out
}

/// The commented configuration that `init` writes.
pub open spec fn template() -> Seq<char> {
    commented(joined(template_lines(), "\n"@))
}

/// The lines of the configuration before it is commented out.
pub open spec fn template_lines() -> Seq<Seq<char>> {
    Seq::new(43, |i: int| INIT_TEMPLATE@[i]@)
}

/// The commented configuration that `init` writes.
pub fn init_template() -> (r: String)
    ensures
        r@ == template(),
{
    let list = INIT_TEMPLATE;
    let mut all: Vec<String> = Vec::new();
    let mut i: usize = 0;
    while i < 43
        invariant
            list == INIT_TEMPLATE,
            i <= 43,
            all@.len() == i,
            forall|j: int| 0 <= j < i ==> (#[trigger] all@[j])@ == INIT_TEMPLATE@[j]@,
        decreases 43 - i,
    {
        all.push(owned(list[i]));
        i += 1;
    }
    assert(all.deep_view() =~= template_lines());
    let text = join(&all, "\n");
    comment_out(text.as_str())
}

/// A report that goes to standard output in place of files.
#[derive(Clone, Copy, PartialEq, Eq, Structural)]
pub enum Format {
    /// the resolved attribution as JSON
    Json,
    /// one flat notices document
    Text,
    /// a CycloneDX bill of materials
    CycloneDx,
}

/// What a run produced: a report always goes to standard output, a summary only when it
/// is not suppressed.
pub enum Output {
    Report(String),
    Summary(String),
}

/// Why a run failed.
pub enum Failure {
    /// a dependency's license is not accepted
    Policy(String),
    /// the output on disk is out of date
    Stale(String),
    /// anything else
    Other(String),
}

/// What a `Failure` holds.
pub enum FailureView {
    Policy(Seq<char>),
    Stale(Seq<char>),
    Other(Seq<char>),
}

impl DeepView for Failure {
    type V = FailureView;

    open spec fn deep_view(&self) -> FailureView {
        match self {
            Failure::Policy(m) => FailureView::Policy(m@),
            Failure::Stale(m) => FailureView::Stale(m@),
            Failure::Other(m) => FailureView::Other(m@),
        }
    }
}

// ---------------------------------------------------------------- arguments

/// The arguments without the name of the subcommand, which cargo passes on.
pub open spec fn own_arguments(args: Seq<Seq<char>>) -> Seq<Seq<char>> {
    if args.len() > 1 && args[1] == "tribute"@ {
        args.remove(1)
    } else {
        args
    }
}

/// Takes the name of the subcommand, which cargo passes on, out of the arguments.
pub fn without_subcommand(args: Vec<String>) -> (r: Vec<String>)
    ensures
        r.deep_view() == own_arguments(args.deep_view()),
{
    let ghost given = args.deep_view();
    let mut args = args;
    if args.len() > 1 && same(args[1].as_str(), "tribute") {
        args.remove(1);
        assert(args.deep_view() =~= given.remove(1));
    }
    args
}

/// The flags that are handed on to `cargo metadata`.
pub struct Flags {
    pub locked: bool,
    pub offline: bool,
    pub frozen: bool,
    pub all_features: bool,
    pub no_default_features: bool,
    pub features: Vec<String>,
    pub filter_platform: Vec<String>,
}

/// What a `Flags` holds.
pub struct FlagsView {
    pub locked: bool,
    pub offline: bool,
    pub frozen: bool,
    pub all_features: bool,
    pub no_default_features: bool,
    pub features: Seq<Seq<char>>,
    pub filter_platform: Seq<Seq<char>>,
}

impl DeepView for Flags {
    type V = FlagsView;

    open spec fn deep_view(&self) -> FlagsView {
        FlagsView {
            locked: self.locked,
            offline: self.offline,
            frozen: self.frozen,
            all_features: self.all_features,
            no_default_features: self.no_default_features,
            features: self.features.deep_view(),
            filter_platform: self.filter_platform.deep_view(),
        }
    }
}

/// A switch, if it is on.
pub open spec fn switch(flag: Seq<char>, on: bool) -> Seq<Seq<char>> {
    if on {
        seq![flag]
    } else {
        Seq::empty()
    }
}

/// A flag before each of its values.
pub open spec fn flagged(flag: Seq<char>, values: Seq<Seq<char>>) -> Seq<Seq<char>>
    decreases values.len(),
{
    if values.len() == 0 {
        Seq::empty()
    } else {
        flagged(flag, values.drop_last()).push(flag).push(values.last())
    }
}

/// The flags written out.
pub open spec fn flags_of(f: FlagsView) -> Seq<Seq<char>> {
    switch("--locked"@, f.locked) + switch("--offline"@, f.offline) + switch(
        "--frozen"@,
        f.frozen,
    ) + switch("--all-features"@, f.all_features) + switch(
        "--no-default-features"@,
        f.no_default_features,
    ) + flagged("--features"@, f.features) + flagged("--filter-platform"@, f.filter_platform)
}

fn add_switch(out: &mut Vec<String>, flag: &str, on: bool)
    ensures
        final(out).deep_view() == old(out).deep_view() + switch(flag@, on),
{
    let ghost was = out.deep_view();
    if on {
        out.push(owned(flag));
        assert(out.deep_view() =~= was + seq![flag@]);
    } else {
        assert(was + Seq::<Seq<char>>::empty() =~= was);
    }
}

fn add_flagged(out: &mut Vec<String>, flag: &str, values: &Vec<String>)
    ensures
        final(out).deep_view() == old(out).deep_view() + flagged(flag@, values.deep_view()),
{
    let ghost was = out.deep_view();
    let ghost all = values.deep_view();
    let mut i: usize = 0;
    assert(was + flagged(flag@, all.take(0)) =~= was);
    while i < values.len()
        invariant
            all == values.deep_view(),
            i <= values@.len(),
            out.deep_view() == was + flagged(flag@, all.take(i as int)),
        decreases values.len() - i,
    {
        let ghost upto = all.take(i + 1);
        let ghost rest = flagged(flag@, all.take(i as int));
        let ghost v = all[i as int];
        assert(upto.drop_last() =~= all.take(i as int));
        assert(upto.last() == v);
        let ghost o = out.deep_view();
        out.push(owned(flag));
        assert(out.deep_view() =~= o.push(flag@));
        out.push(owned(values[i].as_str()));
        assert(out.deep_view() =~= o.push(flag@).push(v));
        assert(o.push(flag@).push(v) =~= was + rest.push(flag@).push(v));
        i += 1;
    }
    assert(all.take(i as int) =~= all);
}

/// The flags that are handed on to `cargo metadata`, written out.
pub fn cargo_flags(f: &Flags) -> (r: Vec<String>)
    ensures
        r.deep_view() == flags_of(f.deep_view()),
{
    let mut out: Vec<String> = Vec::new();
    assert(out.deep_view() + switch("--locked"@, f.locked) =~= switch("--locked"@, f.locked));
    add_switch(&mut out, "--locked", f.locked);
    add_switch(&mut out, "--offline", f.offline);
    add_switch(&mut out, "--frozen", f.frozen);
    add_switch(&mut out, "--all-features", f.all_features);
    add_switch(&mut out, "--no-default-features", f.no_default_features);
    add_flagged(&mut out, "--features", &f.features);
    add_flagged(&mut out, "--filter-platform", &f.filter_platform);
    out
}

/// The report that is asked for; `--json` is short for the JSON format.
pub fn report_format(format: Option<Format>, json: bool) -> (r: Option<Format>)
    ensures
        r == match format {
            Some(f) => Some(f),
            None => if json {
                Some(Format::Json)
            } else {
                None
            },
        },
{
    match format {
        Some(f) => Some(f),
        None => if json {
            Some(Format::Json)
        } else {
            None
        },
    }
}

/// What a run does in the end.
#[derive(Clone, Copy, PartialEq, Eq, Structural)]
pub enum Mode {
    /// compares the declared licenses with the files that crates ship
    Audit,
    /// prints a report
    Report(Format),
    /// holds the files on disk against what they should be
    Check,
    /// writes the files
    Write,
}

/// What a run does in the end: an audit goes before a report, and a report before a check.
/// Only a run that is asked for none of these writes.
pub fn mode(format: Option<Format>, audit: bool, check: bool) -> (r: Mode)
    ensures
        r == if audit {
            Mode::Audit
        } else {
            match format {
                Some(f) => Mode::Report(f),
                None => if check {
                    Mode::Check
                } else {
                    Mode::Write
                },
            }
        },
        r == Mode::Write <==> format is None && !audit && !check,
{
    if audit {
        return Mode::Audit;
    }
    match format {
        Some(f) => Mode::Report(f),
        None => if check {
            Mode::Check
        } else {
            Mode::Write
        },
    }
}

/// Selected packages are a partial view, which only a report may show: written out, it
/// would replace the files that cover the whole workspace.
pub fn check_scope(packages: &Vec<String>, format: Option<Format>, audit: bool) -> (r: Result<
    (),
    Failure,
>)
    ensures
        r is Err <==> packages@.len() > 0 && format is None && !audit,
        r matches Err(f) ==> f.deep_view() == FailureView::Other(
            "-p is a scoped view; use it with --json/--format/--audit, or drop -p for the full run"@,
        ),
{
    if packages.len() > 0 && format.is_none() && !audit {
        return Err(
            Failure::Other(
                owned(
                    "-p is a scoped view; use it with --json/--format/--audit, or drop -p for the full run",
                ),
            ),
        );
    }
    Ok(())
}

// ---------------------------------------------------------------- init

/// The summary of a configuration that was written.
pub open spec fn wrote_config(path: Seq<char>) -> Seq<char> {
    "wrote "@ + path + "; uncomment what you need (CI: cargo tribute --locked --check)"@
}

/// Whether to write a configuration, and what to say then: an existing one is not
/// overwritten.
pub fn init_summary(path: &str, exists: bool) -> (r: Result<String, Failure>)
    ensures
        match r {
            Ok(s) => !exists && s@ == wrote_config(path@),
            Err(f) => exists && f.deep_view() == FailureView::Other(path@ + " already exists"@),
        },
{
    if exists {
        return Err(Failure::Other(cat2(path, " already exists")));
    }
    Ok(cat3("wrote ", path, "; uncomment what you need (CI: cargo tribute --locked --check)"))
}

// ---------------------------------------------------------------- the end of a run

/// How a run ends: what it prints, and its exit code.
pub struct Exit {
    pub out: Option<String>,
    pub err: Option<String>,
    pub code: u8,
}

/// The exit code of a failure, so that a build can branch on it.
pub open spec fn code_of(f: FailureView) -> u8 {
    match f {
        FailureView::Policy(_) => 1,
        FailureView::Stale(_) => 2,
        FailureView::Other(_) => 3,
    }
}

/// The message of a failure.
pub open spec fn message_of(f: FailureView) -> Seq<char> {
    match f {
        FailureView::Policy(m) => m,
        FailureView::Stale(m) => m,
        FailureView::Other(m) => m,
    }
}

/// How a run ends.
pub fn conclude(result: Result<Output, Failure>, quiet: bool) -> (r: Exit)
    ensures
        match result {
            Ok(Output::Report(s)) => r.out == Some(s) && r.err is None && r.code == 0,
            Ok(Output::Summary(s)) => r.out == if quiet {
                None
            } else {
                Some(s)
            } && r.err is None && r.code == 0,
            Err(f) => r.out is None && r.err.deep_view() == Some(
                "cargo-tribute: "@ + message_of(f.deep_view()),
            ) && r.code == code_of(f.deep_view()),
        },
{
    match result {
        Ok(Output::Report(s)) => Exit { out: Some(s), err: None, code: 0 },
        Ok(Output::Summary(s)) => Exit {
            out: if quiet {
                None
            } else {
                Some(s)
            },
            err: None,
            code: 0,
        },
        Err(f) => {
            let (m, code): (String, u8) = match f {
                Failure::Policy(m) => (m, 1),
                Failure::Stale(m) => (m, 2),
                Failure::Other(m) => (m, 3),
            };
            Exit { out: None, err: Some(cat2("cargo-tribute: ", m.as_str())), code }
        },
    }
}

/// The exit code when the arguments were not parsed to a run: help and version end well,
/// a mistake is neither a failed policy nor stale output.
pub fn usage_code(is_error: bool) -> (r: u8)
    ensures
        r == if is_error {
            3u8
        } else {
            0u8
        },
{
    if is_error {
        3
    } else {
        0
    }
}

/// The exit codes tell the kinds of failure apart from each other and from success.
pub proof fn codes_tell_failures_apart(f: FailureView, g: FailureView)
    ensures
        code_of(f) != 0,
        code_of(f) == code_of(g) <==> (f is Policy == g is Policy && f is Stale == g is Stale),
{
}

/// Every line of a text that was commented out is empty or a comment, so that nothing in it
/// is in force.
pub proof fn comment_leaves_nothing_in_force(text: Seq<char>)
    ensures
        forall|i: int|
            0 <= i < lines_of(commented(text)).len() ==> {
                let line = #[trigger] lines_of(commented(text))[i];
                line.len() == 0 || line[0] == '#'
            },
    decreases text.len(),
{
    reveal_strlit("# ");
    reveal_strlit("\n");
    let ls = lines_of(text);
    if ls.len() > 0 {
        let n = run_len(text, Class::Not('\n'));
        run_len_is(text, Class::Not('\n'), n);
        let rest = if n < text.len() {
            text.skip(n as int + 1)
        } else {
            Seq::empty()
        };
        assert(ls.drop_first() =~= lines_of(rest));
        comment_leaves_nothing_in_force(rest);
        let c = as_comment(ls[0]);
        let all = commented(text);
        assert(all == c + "\n"@ + commented(rest));
        assert forall|i: int| 0 <= i < c.len() implies Class::Not('\n').has(#[trigger] all[i]) by {
            assert(all[i] == c[i]);
            if i >= 2 {
                assert(c[i] == ls[0][i - 2]);
                assert(ls[0][i - 2] == text[i - 2]);
            }
        }
        assert(all[c.len() as int] == '\n');
        run_len_is(all, Class::Not('\n'), c.len());
        assert(all.take(c.len() as int) =~= c);
        assert(all.skip(c.len() as int + 1) =~= commented(rest));
        let first = without_cr(c);
        assert(lines_of(all) =~= seq![first] + lines_of(commented(rest)));
        assert forall|i: int| 0 <= i < lines_of(all).len() implies ({
            let line = #[trigger] lines_of(all)[i];
            line.len() == 0 || line[0] == '#'
        }) by {
            if i > 0 {
                assert(lines_of(all)[i] == lines_of(commented(rest))[i - 1]);
            }
        }
    }
}

/// A word that stands in a text stands in it still when it is commented out.
pub proof fn comment_keeps_words(text: Seq<char>, word: Seq<char>)
    requires
        contains(text, word),
        word.len() > 0,
        !word.contains('\n'),
        word.last() != '\r',
    ensures
        contains(commented(text), word),
    decreases text.len(),
{
    reveal_strlit("\n");
    let at = choose|i: int| occurs_at(text, word, i);
    let ls = lines_of(text);
    let n = run_len(text, Class::Not('\n')) as int;
    run_len_is(text, Class::Not('\n'), n as nat);
    let rest = if n < text.len() {
        text.skip(n + 1)
    } else {
        Seq::empty()
    };
    assert(ls.drop_first() =~= lines_of(rest));
    let c = as_comment(ls[0]);
    assert(commented(text) == c + "\n"@ + commented(rest));
    assert(text.subrange(at, at + word.len())[word.len() - 1] == word.last());
    if at <= n < at + word.len() && n < text.len() {
        assert(text.subrange(at, at + word.len())[n - at] == '\n');
        assert(word[n - at] == '\n');
    }
    if at + word.len() <= n {
        assert(ls[0].subrange(at, at + word.len()) =~= text.subrange(at, at + word.len()));
        assert(occurs_at(ls[0], word, at));
        contained_behind("# "@, ls[0], word);
        contained_stays(c, "\n"@, word);
        contained_stays(c + "\n"@, commented(rest), word);
    } else {
        let i = at - n - 1;
        assert(rest.subrange(i, i + word.len()) =~= text.subrange(at, at + word.len()));
        assert(occurs_at(rest, word, i));
        comment_keeps_words(rest, word);
        contained_behind(c + "\n"@, commented(rest), word);
    }
}

/// Texts that are joined hold what each of them holds.
proof fn joined_contains(list: Seq<Seq<char>>, sep: Seq<char>, i: int, word: Seq<char>)
    requires
        0 <= i < list.len(),
        contains(list[i], word),
    ensures
        contains(joined(list, sep), word),
    decreases list.len(),
{
    if list.len() > 1 {
        let front = list.drop_last();
        if i < front.len() {
            joined_contains(front, sep, i, word);
            contained_stays(joined(front, sep), sep, word);
            contained_stays(joined(front, sep) + sep, list.last(), word);
        } else {
            contained_behind(joined(front, sep) + sep, list.last(), word);
        }
    }
}

/// A key at the start of a line of the configuration is named by the template.
pub(crate) proof fn key_is_named(i: int, key: Seq<char>)
    requires
        0 <= i < 43,
        starts(INIT_TEMPLATE@[i]@, key),
        key.len() > 0,
        !key.contains('\n'),
        key.last() != '\r',
    ensures
        contains(template(), key),
{
    assert(occurs_at(template_lines()[i], key, 0));
    joined_contains(template_lines(), "\n"@, i, key);
    comment_keeps_words(joined(template_lines(), "\n"@), key);
}

proof fn fields_are_named()
    ensures
        contains(template(), "accepted"@),
        contains(template(), "include-dev"@),
        contains(template(), "include-build"@),
        contains(template(), "skip-private"@),
        contains(template(), "skip-proc-macros"@),
{
    reveal_strlit("accepted");
    assert(starts(INIT_TEMPLATE@[3]@, "accepted"@)) by {
        reveal_strlit("accepted = [\"MIT\", \"Apache-2.0\", \"BSD-2-Clause\", \"BSD-3-Clause\", \"ISC\", \"0BSD\", \"Zlib\", \"Unlicense\", \"Unicode-3.0\"]");
        assert(INIT_TEMPLATE@[3]@.subrange(0, 8) =~= "accepted"@);
    }
    key_is_named(3, "accepted"@);
    reveal_strlit("include-dev");
    assert(starts(INIT_TEMPLATE@[5]@, "include-dev"@)) by {
        reveal_strlit("include-dev = false           # also attribute dev-dependencies");
        assert(INIT_TEMPLATE@[5]@.subrange(0, 11) =~= "include-dev"@);
    }
    key_is_named(5, "include-dev"@);
    reveal_strlit("include-build");
    assert(starts(INIT_TEMPLATE@[6]@, "include-build"@)) by {
        reveal_strlit("include-build = false         # also attribute build-dependencies");
        assert(INIT_TEMPLATE@[6]@.subrange(0, 13) =~= "include-build"@);
    }
    key_is_named(6, "include-build"@);
    reveal_strlit("skip-private");
    assert(starts(INIT_TEMPLATE@[7]@, "skip-private"@)) by {
        reveal_strlit("skip-private = false          # skip path/git/non-crates.io dependencies");
        assert(INIT_TEMPLATE@[7]@.subrange(0, 12) =~= "skip-private"@);
    }
    key_is_named(7, "skip-private"@);
    reveal_strlit("skip-proc-macros");
    assert(starts(INIT_TEMPLATE@[8]@, "skip-proc-macros"@)) by {
        reveal_strlit("skip-proc-macros = false      # skip proc-macro crates (compile-time only)");
        assert(INIT_TEMPLATE@[8]@.subrange(0, 16) =~= "skip-proc-macros"@);
    }
    key_is_named(8, "skip-proc-macros"@);
}

proof fn paths_are_named()
    ensures
        contains(template(), "layout"@),
        contains(template(), "flat-file"@),
        contains(template(), "manifest"@),
        contains(template(), "licenses-dir"@),
        contains(template(), "notices-dir"@),
{
    reveal_strlit("layout");
    assert(starts(INIT_TEMPLATE@[15]@, "layout"@)) by {
        reveal_strlit("layout = \"folders\"");
        assert(INIT_TEMPLATE@[15]@.subrange(0, 6) =~= "layout"@);
    }
    key_is_named(15, "layout"@);
    reveal_strlit("flat-file");
    assert(starts(INIT_TEMPLATE@[16]@, "flat-file"@)) by {
        reveal_strlit("flat-file = \"THIRD-PARTY-NOTICES\"");
        assert(INIT_TEMPLATE@[16]@.subrange(0, 9) =~= "flat-file"@);
    }
    key_is_named(16, "flat-file"@);
    reveal_strlit("manifest");
    assert(starts(INIT_TEMPLATE@[9]@, "manifest"@)) by {
        reveal_strlit("manifest = \"THIRD-PARTY.md\"");
        assert(INIT_TEMPLATE@[9]@.subrange(0, 8) =~= "manifest"@);
    }
    key_is_named(9, "manifest"@);
    reveal_strlit("licenses-dir");
    assert(starts(INIT_TEMPLATE@[10]@, "licenses-dir"@)) by {
        reveal_strlit("licenses-dir = \"LICENSES\"");
        assert(INIT_TEMPLATE@[10]@.subrange(0, 12) =~= "licenses-dir"@);
    }
    key_is_named(10, "licenses-dir"@);
    reveal_strlit("notices-dir");
    assert(starts(INIT_TEMPLATE@[11]@, "notices-dir"@)) by {
        reveal_strlit("notices-dir = \"NOTICES\"");
        assert(INIT_TEMPLATE@[11]@.subrange(0, 11) =~= "notices-dir"@);
    }
    key_is_named(11, "notices-dir"@);
}

proof fn lists_are_named()
    ensures
        contains(template(), "[[clarify]]"@),
        contains(template(), "[[exception]]"@),
        contains(template(), "[[extra]]"@),
        contains(template(), "[[license-text]]"@),
{
    reveal_strlit("[[clarify]]");
    assert(starts(INIT_TEMPLATE@[19]@, "[[clarify]]"@)) by {
        reveal_strlit("[[clarify]]");
        assert(INIT_TEMPLATE@[19]@.subrange(0, 11) =~= "[[clarify]]"@);
    }
    key_is_named(19, "[[clarify]]"@);
    reveal_strlit("[[exception]]");
    assert(starts(INIT_TEMPLATE@[25]@, "[[exception]]"@)) by {
        reveal_strlit("[[exception]]");
        assert(INIT_TEMPLATE@[25]@.subrange(0, 13) =~= "[[exception]]"@);
    }
    key_is_named(25, "[[exception]]"@);
    reveal_strlit("[[extra]]");
    assert(starts(INIT_TEMPLATE@[31]@, "[[extra]]"@)) by {
        reveal_strlit("[[extra]]");
        assert(INIT_TEMPLATE@[31]@.subrange(0, 9) =~= "[[extra]]"@);
    }
    key_is_named(31, "[[extra]]"@);
    reveal_strlit("[[license-text]]");
    assert(starts(INIT_TEMPLATE@[40]@, "[[license-text]]"@)) by {
        reveal_strlit("[[license-text]]");
        assert(INIT_TEMPLATE@[40]@.subrange(0, 16) =~= "[[license-text]]"@);
    }
    key_is_named(40, "[[license-text]]"@);
}

/// The configuration that `init` writes names every key, and none of its lines is in force.
pub proof fn template_names_every_key()
    ensures
        forall|i: int| 0 <= i < 14 ==> contains(template(), #[trigger] CONFIG_KEYS@[i]@),
        forall|i: int|
            0 <= i < lines_of(template()).len() ==> {
                let line = #[trigger] lines_of(template())[i];
                line.len() == 0 || line[0] == '#'
            },
{
    fields_are_named();
    paths_are_named();
    lists_are_named();
    comment_leaves_nothing_in_force(joined(template_lines(), "\n"@));
    assert forall|i: int| 0 <= i < 14 implies contains(template(), #[trigger] CONFIG_KEYS@[i]@) by {
        if i == 0 {
            assert(CONFIG_KEYS@[i]@ == "accepted"@);
        } else if i == 1 {
            assert(CONFIG_KEYS@[i]@ == "include-dev"@);
        } else if i == 2 {
            assert(CONFIG_KEYS@[i]@ == "include-build"@);
        } else if i == 3 {
            assert(CONFIG_KEYS@[i]@ == "skip-private"@);
        } else if i == 4 {
            assert(CONFIG_KEYS@[i]@ == "skip-proc-macros"@);
        } else if i == 5 {
            assert(CONFIG_KEYS@[i]@ == "layout"@);
        } else if i == 6 {
            assert(CONFIG_KEYS@[i]@ == "flat-file"@);
        } else if i == 7 {
            assert(CONFIG_KEYS@[i]@ == "manifest"@);
        } else if i == 8 {
            assert(CONFIG_KEYS@[i]@ == "licenses-dir"@);
        } else if i == 9 {
            assert(CONFIG_KEYS@[i]@ == "notices-dir"@);
        } else if i == 10 {
            assert(CONFIG_KEYS@[i]@ == "[[clarify]]"@);
        } else if i == 11 {
            assert(CONFIG_KEYS@[i]@ == "[[exception]]"@);
        } else if i == 12 {
            assert(CONFIG_KEYS@[i]@ == "[[extra]]"@);
        } else if i == 13 {
            assert(CONFIG_KEYS@[i]@ == "[[license-text]]"@);
        }
    }
}

} // verus!
