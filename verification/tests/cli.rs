use cargo_tribute::cli::{
    cargo_flags, check_scope, comment_out, conclude, init_summary, init_template, mode, report_format, usage_code, without_subcommand, Failure, Flags, Format, Mode, Output,
    AFTER_HELP, CONFIG_KEYS,
};

fn names(list: &[&str]) -> Vec<String> {
    list.iter().map(|s| s.to_string()).collect()
}

#[test]
fn help_and_init_template_cover_every_config_key() {
    // --help and the init template are hand-kept copies of the config surface;
    // add new tribute.toml keys to this list and both texts, or this fails.
    const KEYS: &[&str] = &[
        "accepted",
        "include-dev",
        "include-build",
        "skip-private",
        "skip-proc-macros",
        "layout",
        "flat-file",
        "manifest",
        "licenses-dir",
        "notices-dir",
        "[[clarify]]",
        "[[exception]]",
        "[[extra]]",
        "[[license-text]]",
    ];
    for k in KEYS {
        assert!(AFTER_HELP.contains(k), "--help lost the config key {k}");
        assert!(init_template().contains(k), "the init template lost the config key {k}");
    }
    assert_eq!(KEYS, &CONFIG_KEYS[..]);
}

#[test]
fn template_changes_nothing() {
    assert!(init_template().contains("# accepted = ["));
    for line in init_template().lines() {
        assert!(line.is_empty() || line.starts_with('#'), "{line}");
    }
}

#[test]
fn template_reads_as_written() {
    let want = "\
# cargo-tribute configuration; every field is optional, these are the defaults.

# allowed licenses, also the OR preference order; \"A WITH B\" pairings work too.
# accepted = [\"MIT\", \"Apache-2.0\", \"BSD-2-Clause\", \"BSD-3-Clause\", \"ISC\", \"0BSD\", \"Zlib\", \"Unlicense\", \"Unicode-3.0\"]

# include-dev = false           # also attribute dev-dependencies
# include-build = false         # also attribute build-dependencies
# skip-private = false          # skip path/git/non-crates.io dependencies
# skip-proc-macros = false      # skip proc-macro crates (compile-time only)
# manifest = \"THIRD-PARTY.md\"
# licenses-dir = \"LICENSES\"
# notices-dir = \"NOTICES\"

# what a run writes and --check gates: folders (default) for the three outputs
# above, flat for one all-in-one THIRD-PARTY-NOTICES file, or both:
# layout = \"folders\"
# flat-file = \"THIRD-PARTY-NOTICES\"

# override a crate's license (missing/wrong/non-SPDX):
# [[clarify]]
# name = \"ring\"
# version = \"0.17.8\"
# expression = \"MIT AND ISC AND OpenSSL\"

# allow extra licenses for one crate only:
# [[exception]]
# name = \"unicode-ident\"
# allow = [\"Unicode-DFS-2016\"]

# attribute non-crate code (vendored C, bundled assets); `notes` is free text
# reproduced in the notices file:
# [[extra]]
# name = \"zlib (bundled in libz-sys)\"
# expression = \"Zlib\"
# url = \"https://zlib.net\"
# notes = \"\"\"
# Vendored under third_party/zlib; local patches: none.
# \"\"\"

# local text for a LicenseRef-* id:
# [[license-text]]
# id = \"LicenseRef-weird\"
# file = \"licenses-extra/weird.txt\"
";;
    assert_eq!(init_template(), want);
}

#[test]
fn lines_become_comments() {
    assert_eq!(comment_out(""), "");
    assert_eq!(comment_out("a = 1\r\n\n  b"), "# a = 1\n\n#   b\n");
    assert_eq!(comment_out("# a\n"), "# # a\n");
}

#[test]
fn flags_are_handed_on_in_order() {
    let none = Flags {
        locked: false,
        offline: false,
        frozen: false,
        all_features: false,
        no_default_features: false,
        features: vec![],
        filter_platform: vec![],
    };
    assert!(cargo_flags(&none).is_empty());
    let all = Flags {
        locked: true,
        offline: true,
        frozen: true,
        all_features: true,
        no_default_features: true,
        features: names(&["a", "b,c"]),
        filter_platform: names(&["x86_64-unknown-linux-gnu"]),
    };
    assert_eq!(
        cargo_flags(&all),
        names(&[
            "--locked",
            "--offline",
            "--frozen",
            "--all-features",
            "--no-default-features",
            "--features",
            "a",
            "--features",
            "b,c",
            "--filter-platform",
            "x86_64-unknown-linux-gnu",
        ])
    );
}

#[test]
fn subcommand_name_is_dropped() {
    assert_eq!(without_subcommand(names(&["cargo-tribute", "tribute", "--json"])), names(&["cargo-tribute", "--json"]));
    assert_eq!(without_subcommand(names(&["cargo-tribute", "--json"])), names(&["cargo-tribute", "--json"]));
    assert_eq!(without_subcommand(names(&["tribute"])), names(&["tribute"]));
}

#[test]
fn json_is_a_format() {
    assert!(report_format(None, false).is_none());
    assert!(report_format(None, true) == Some(Format::Json));
    assert!(report_format(Some(Format::Text), true) == Some(Format::Text));
}

#[test]
fn only_a_plain_run_writes() {
    assert!(mode(None, false, false) == Mode::Write);
    assert!(mode(None, false, true) == Mode::Check);
    assert!(mode(Some(Format::Json), false, true) == Mode::Report(Format::Json));
    assert!(mode(Some(Format::Json), true, true) == Mode::Audit);
    assert!(mode(None, true, false) == Mode::Audit);
}

#[test]
fn selected_packages_need_a_report() {
    assert!(check_scope(&names(&["a"]), None, false).is_err());
    assert!(check_scope(&names(&["a"]), Some(Format::Text), false).is_ok());
    assert!(check_scope(&names(&["a"]), None, true).is_ok());
    assert!(check_scope(&vec![], None, false).is_ok());
}

#[test]
fn init_refuses_to_overwrite() {
    assert_eq!(
        init_summary("/w/tribute.toml", false).ok().as_deref(),
        Some("wrote /w/tribute.toml; uncomment what you need (CI: cargo tribute --locked --check)")
    );
    assert!(matches!(init_summary("/w/tribute.toml", true), Err(Failure::Other(m)) if m == "/w/tribute.toml already exists"));
}

#[test]
fn failures_have_their_exit_codes() {
    let e = conclude(Err(Failure::Policy("p".to_string())), false);
    assert_eq!((e.out, e.err.as_deref(), e.code), (None, Some("cargo-tribute: p"), 1));
    let e = conclude(Err(Failure::Stale("s".to_string())), false);
    assert_eq!((e.err.as_deref(), e.code), (Some("cargo-tribute: s"), 2));
    let e = conclude(Err(Failure::Other("o".to_string())), true);
    assert_eq!((e.err.as_deref(), e.code), (Some("cargo-tribute: o"), 3));
    assert_eq!(usage_code(true), 3);
    assert_eq!(usage_code(false), 0);
}

#[test]
fn quiet_suppresses_only_the_summary() {
    let e = conclude(Ok(Output::Summary("done".to_string())), false);
    assert_eq!((e.out.as_deref(), e.code), (Some("done"), 0));
    let e = conclude(Ok(Output::Summary("done".to_string())), true);
    assert_eq!((e.out, e.code), (None, 0));
    let e = conclude(Ok(Output::Report("r".to_string())), true);
    assert_eq!(e.out.as_deref(), Some("r"));
}
