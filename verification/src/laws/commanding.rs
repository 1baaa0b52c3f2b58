//! How the command line is read and how a run ends.

use vstd::prelude::*;
use crate::cli::{
    as_comment, code_of, commented, comments, flagged, flags_of, key_is_named, message_of,
    own_arguments, template, wrote_config, FailureView, FlagsView, INIT_TEMPLATE,
};
use crate::scan::{contains, lines_of, starts};

verus! {

/// The name of the subcommand is dropped where cargo puts it in front; all other arguments
/// stay, in order.
pub proof fn subcommand_is_dropped(program: Seq<char>, rest: Seq<Seq<char>>)
    ensures
        own_arguments(seq![program, "tribute"@] + rest) == seq![program] + rest,
        rest.len() == 0 || rest[0] != "tribute"@ ==> own_arguments(seq![program] + rest) == seq![program] + rest,
        own_arguments(Seq::empty()) == Seq::<Seq<char>>::empty(),
{
    let s = seq![program, "tribute"@] + rest;
    assert(s.remove(1) =~= seq![program] + rest);
    let t = seq![program] + rest;
    if rest.len() > 0 {
        assert(t[1] == rest[0]);
    }
}

/// A flag that takes a value stands before each of its values, in order.
pub proof fn flag_stands_before_each_value(flag: Seq<char>, a: Seq<Seq<char>>, b: Seq<Seq<char>>, v: Seq<char>)
    ensures
        flagged(flag, a + b) == flagged(flag, a) + flagged(flag, b),
        flagged(flag, seq![v]) == seq![flag, v],
        flagged(flag, Seq::empty()) == Seq::<Seq<char>>::empty(),
    decreases b.len(),
{
    if b.len() == 0 {
        assert(a + b =~= a);
        assert(flagged(flag, a) + flagged(flag, b) =~= flagged(flag, a));
    } else {
        flag_stands_before_each_value(flag, a, b.drop_last(), v);
        assert((a + b).drop_last() =~= a + b.drop_last());
        assert(flagged(flag, a + b) =~= flagged(flag, a) + flagged(flag, b));
    }
    reveal_with_fuel(flagged, 2);
    assert(seq![v].drop_last() =~= Seq::<Seq<char>>::empty());
    assert(flagged(flag, seq![v]) =~= seq![flag, v]);
}

/// A switch of one word, handed on where it is set.
pub open spec fn if_set(on: bool, flag: Seq<char>) -> Seq<Seq<char>> {
    if on {
        seq![flag]
    } else {
        Seq::empty()
    }
}

/// Cargo is handed every switch that is set, by its own name, then each feature and each
/// platform behind its flag.
pub proof fn cargo_is_handed_what_is_set(f: FlagsView)
    ensures
        flags_of(f) == if_set(f.locked, "--locked"@) + if_set(f.offline, "--offline"@) + if_set(f.frozen, "--frozen"@)
            + if_set(f.all_features, "--all-features"@) + if_set(f.no_default_features, "--no-default-features"@)
            + flagged("--features"@, f.features) + flagged("--filter-platform"@, f.filter_platform),
{
}

/// The exit code tells a failed policy, files that are out of date and anything else apart;
/// the message is that of the failure.
pub proof fn failures_have_codes_and_messages(m: Seq<char>)
    ensures
        code_of(FailureView::Policy(m)) == 1,
        code_of(FailureView::Stale(m)) == 2,
        code_of(FailureView::Other(m)) == 3,
        message_of(FailureView::Policy(m)) == m,
        message_of(FailureView::Stale(m)) == m,
        message_of(FailureView::Other(m)) == m,
{
}

/// Commenting out puts a mark before every line that holds something, and keeps the line.
pub proof fn each_line_is_commented_out(line: Seq<char>, rest: Seq<Seq<char>>)
    ensures
        comments(seq![line] + rest) == (if line.len() == 0 {
            "\n"@
        } else {
            "# "@ + line + "\n"@
        }) + comments(rest),
        comments(Seq::empty()) == Seq::<char>::empty(),
{
    let all = seq![line] + rest;
    assert(all.drop_first() =~= rest);
    if line.len() == 0 {
        assert(line =~= Seq::<char>::empty());
        assert(as_comment(line) + "\n"@ =~= "\n"@);
    }
}

/// A text is commented out line by line.
pub proof fn text_is_commented_out_by_lines(text: Seq<char>)
    ensures
        commented(text) == comments(lines_of(text)),
{
}

/// A new configuration is told with its path.
pub proof fn new_configuration_is_told(path: Seq<char>)
    ensures
        wrote_config(path) == "wrote "@ + path + "; uncomment what you need (CI: cargo tribute --locked --check)"@,
{
}

proof fn whole_line_is_named(i: int, line: Seq<char>)
    requires
        0 <= i < 43,
        INIT_TEMPLATE@[i]@ == line,
        line.len() > 0,
        !line.contains('\n'),
        line.last() != '\r',
    ensures
        contains(template(), line),
{
    assert(line.subrange(0, line.len() as int) =~= line);
    assert(starts(INIT_TEMPLATE@[i]@, line));
    key_is_named(i, line);
}

/// A new configuration gives the defaults of what is accepted and of what is walked.
pub proof fn template_states_the_default_policy()
    ensures
        contains(template(), "accepted = [\"MIT\", \"Apache-2.0\", \"BSD-2-Clause\", \"BSD-3-Clause\", \"ISC\", \"0BSD\", \"Zlib\", \"Unlicense\", \"Unicode-3.0\"]"@),
        contains(template(), "include-dev = false           # also attribute dev-dependencies"@),
        contains(template(), "include-build = false         # also attribute build-dependencies"@),
        contains(template(), "skip-private = false          # skip path/git/non-crates.io dependencies"@),
        contains(template(), "skip-proc-macros = false      # skip proc-macro crates (compile-time only)"@),
{
    reveal_strlit("accepted = [\"MIT\", \"Apache-2.0\", \"BSD-2-Clause\", \"BSD-3-Clause\", \"ISC\", \"0BSD\", \"Zlib\", \"Unlicense\", \"Unicode-3.0\"]");
    whole_line_is_named(3, "accepted = [\"MIT\", \"Apache-2.0\", \"BSD-2-Clause\", \"BSD-3-Clause\", \"ISC\", \"0BSD\", \"Zlib\", \"Unlicense\", \"Unicode-3.0\"]"@);
    reveal_strlit("include-dev = false           # also attribute dev-dependencies");
    whole_line_is_named(5, "include-dev = false           # also attribute dev-dependencies"@);
    reveal_strlit("include-build = false         # also attribute build-dependencies");
    whole_line_is_named(6, "include-build = false         # also attribute build-dependencies"@);
    reveal_strlit("skip-private = false          # skip path/git/non-crates.io dependencies");
    whole_line_is_named(7, "skip-private = false          # skip path/git/non-crates.io dependencies"@);
    reveal_strlit("skip-proc-macros = false      # skip proc-macro crates (compile-time only)");
    whole_line_is_named(8, "skip-proc-macros = false      # skip proc-macro crates (compile-time only)"@);
}

/// A new configuration gives the defaults of what is written, and where.
pub proof fn template_states_the_default_places()
    ensures
        contains(template(), "manifest = \"THIRD-PARTY.md\""@),
        contains(template(), "licenses-dir = \"LICENSES\""@),
        contains(template(), "notices-dir = \"NOTICES\""@),
        contains(template(), "layout = \"folders\""@),
        contains(template(), "flat-file = \"THIRD-PARTY-NOTICES\""@),
{
    reveal_strlit("manifest = \"THIRD-PARTY.md\"");
    whole_line_is_named(9, "manifest = \"THIRD-PARTY.md\""@);
    reveal_strlit("licenses-dir = \"LICENSES\"");
    whole_line_is_named(10, "licenses-dir = \"LICENSES\""@);
    reveal_strlit("notices-dir = \"NOTICES\"");
    whole_line_is_named(11, "notices-dir = \"NOTICES\""@);
    reveal_strlit("layout = \"folders\"");
    whole_line_is_named(15, "layout = \"folders\""@);
    reveal_strlit("flat-file = \"THIRD-PARTY-NOTICES\"");
    whole_line_is_named(16, "flat-file = \"THIRD-PARTY-NOTICES\""@);
}

} // verus!
