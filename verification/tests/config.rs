use standup::config::{
    cache_file, config_dir, config_file, date_ref_repo, empty_status, last_run_file, load_file,
    load_with_args, load_with_parsed_args, non_empty_env, plugin_id, settle, state_dir, Arguments,
    Config, Environment, FileConfig, Format, Ignored, Verb, DEFAULT_SINCE, EXIT_EMPTY,
};
use standup::model::Period;

fn args(list: &[&str]) -> Vec<String> {
    list.iter().map(|s| s.to_string()).collect()
}

fn load(list: &[&str]) -> Result<Config, String> {
    load_with_args(&args(list), Config::default())
}

/// One `Cargo.lock` entry has to cover a workspace with nine crates, which
/// is why the bare form matches the basename at any depth.
#[test]
fn a_bare_pattern_matches_the_basename_at_any_depth() {
    let ignored = Ignored::new(vec!["Cargo.lock".to_string()]);
    assert!(ignored.matches("Cargo.lock"));
    assert!(ignored.matches("crates/core/Cargo.lock"));
    assert!(!ignored.matches("Cargo.toml"));
    assert!(
        !ignored.matches("Cargo.lock.bak"),
        "the basename has to match, not merely start with the pattern"
    );
}

/// `node_modules/` has to cover `web/node_modules/…` as well as the root,
/// because that is where it actually turns up.
#[test]
fn a_trailing_slash_matches_a_directory_at_any_depth() {
    let ignored = Ignored::new(vec!["node_modules/".to_string()]);
    assert!(ignored.matches("node_modules/react/index.js"));
    assert!(ignored.matches("web/node_modules/react/index.js"));
    assert!(!ignored.matches("src/node_modules.md"));
}

/// A *file* named like a build directory is not build output. The last
/// segment is a filename and is never treated as a directory.
#[test]
fn a_file_named_like_a_directory_is_not_excluded() {
    let ignored = Ignored::new(vec!["dist/".to_string()]);
    assert!(ignored.matches("dist/app.js"));
    assert!(!ignored.matches("dist"));
    assert!(!ignored.matches("scripts/dist"));
}

#[test]
fn a_wildcard_never_crosses_a_separator() {
    let ignored = Ignored::new(vec!["docs/*.json".to_string()]);
    assert!(ignored.matches("docs/api.json"));
    assert!(
        !ignored.matches("docs/v2/api.json"),
        "`*` is one level; a subtree is asked for with a trailing slash"
    );
    assert!(!ignored.matches("api.json"));
}

#[test]
fn a_bare_wildcard_matches_the_basename_only() {
    let ignored = Ignored::new(vec!["*.min.js".to_string()]);
    assert!(ignored.matches("static/app.min.js"));
    assert!(!ignored.matches("static/app.js"));
}

/// Turning the exclusion off has to be possible, and an empty list is how.
#[test]
fn an_empty_list_matches_nothing() {
    let ignored = Ignored::new(Vec::new());
    assert!(!ignored.matches("Cargo.lock"));
    assert!(!ignored.matches("node_modules/react/index.js"));
}

/// The defaults are the point of the feature, so they are pinned rather than
/// assumed: these are the paths a reader will actually meet.
#[test]
fn the_default_list_covers_the_obvious_cases() {
    let ignored = Ignored::default();
    for path in [
        "Cargo.lock",
        "crates/core/Cargo.lock",
        "pnpm-lock.yaml",
        "web/package-lock.json",
        "go.sum",
        "flake.lock",
        "vendor/github.com/pkg/errors/errors.go",
        "web/node_modules/react/index.js",
        "target/debug/build.rs",
        "dist/app.js",
        ".next/static/chunk.js",
    ] {
        assert!(ignored.matches(path), "{path} should not be counted");
    }
    for path in [
        "Cargo.toml",
        "src/main.rs",
        "package.json",
        "docs/target.md",
        "src/dist.rs",
        "vendor.rs",
    ] {
        assert!(!ignored.matches(path), "{path} is somebody's work");
    }
}

/// A rollup sets its own window, so a window the user also asked for cannot
/// be honoured. Refused by name rather than one quietly winning: silently
/// preferring either would make the other look broken.
#[test]
fn a_rollup_refuses_to_share_the_window_with_anything() {
    for conflicting in [
        vec!["--weekly", "--since", "yesterday"],
        vec!["--weekly", "--until", "now"],
        vec!["--weekly", "--since-last"],
        vec!["--monthly", "--since=2026-08-01"],
        vec!["--monthly", "--since-last"],
    ] {
        let err =
            load(&conflicting).expect_err(&format!("{conflicting:?} should not be accepted"));
        assert!(
            err.contains("mutually exclusive"),
            "{conflicting:?}: {err}"
        );
    }
}

#[test]
fn the_two_rollups_are_mutually_exclusive() {
    let err = load(&["--weekly", "--monthly"]).expect_err("two periods is not a window");
    assert!(err.contains("mutually exclusive"), "{err}");
}

#[test]
fn each_rollup_flag_selects_its_own_period() {
    assert_eq!(load(&["--weekly"]).unwrap().rollup, Some(Period::Week));
    assert_eq!(load(&["--monthly"]).unwrap().rollup, Some(Period::Month));
    assert_eq!(load(&[]).unwrap().rollup, None);
}

#[test]
fn both_spellings_of_a_valued_flag_work() {
    let parsed = load(&["--since=yesterday"]).unwrap();
    assert_eq!(parsed.since, "yesterday");
    let parsed = load(&["--since", "2 days ago"]).unwrap();
    assert_eq!(parsed.since, "2 days ago");
}

/// Asking for `midnight` by name is not the same as not asking at all, even
/// though the resulting window is identical — the header explains one and
/// not the other.
#[test]
fn an_explicit_since_is_distinguishable_from_the_default() {
    assert!(!load(&[]).unwrap().since_is_explicit);
    let parsed = load(&["--since", DEFAULT_SINCE]).unwrap();
    assert_eq!(parsed.since, DEFAULT_SINCE);
    assert!(parsed.since_is_explicit);
}

#[test]
fn a_valued_flag_with_no_value_is_an_error() {
    assert!(load(&["--since"]).is_err());
}

#[test]
fn contradictory_windows_are_refused_rather_than_ranked() {
    let err = load(&["--since", "yesterday", "--since-last"]).unwrap_err();
    assert!(err.contains("mutually exclusive"));
}

#[test]
fn formats_parse_by_name_and_alias() {
    assert_eq!(Format::parse("md").unwrap(), Format::Markdown);
    assert_eq!(Format::parse("JSON").unwrap(), Format::Json);
    assert!(Format::parse("yaml").is_err());
}

#[test]
fn repeated_paths_all_survive() {
    let parsed = load(&["--path", "/a", "--path=/b"]).unwrap();
    assert_eq!(parsed.extra_paths, vec!["/a".to_string(), "/b".to_string()]);
}

#[test]
fn every_valued_option_accepts_both_spellings_and_last_value_wins() {
    for name in [
        "--since",
        "--until",
        "--path",
        "--format",
        "--max-commits",
        "--diff",
    ] {
        let separate = vec![name.to_string(), "separate".to_string()];
        let parsed = Arguments::parse(&separate).expect(name);
        assert_eq!(parsed.value(name), Some("separate"), "{name}");

        let inline = vec![format!("{name}=inline")];
        let parsed = Arguments::parse(&inline).expect(name);
        assert_eq!(parsed.value(name), Some("inline"), "{name}");

        let repeated = vec![
            name.to_string(),
            "first".to_string(),
            format!("{name}=last"),
        ];
        let parsed = Arguments::parse(&repeated).expect(name);
        assert_eq!(parsed.value(name), Some("last"), "{name}");
    }
}

#[test]
fn every_standalone_option_rejects_a_value() {
    for name in [
        "--since-last",
        "--weekly",
        "--monthly",
        "--by-agent",
        "--fail-if-empty",
        "--offline",
        "--busy",
        "--all",
        "--no-siblings",
    ] {
        let valid = args(&[name]);
        Arguments::parse(&valid).expect(name);

        let invalid = vec![format!("{name}=false")];
        let err = Arguments::parse(&invalid).expect_err(name);
        assert!(
            err.contains(name) && err.contains("does not take a value"),
            "{name}: {err}"
        );
    }
}

#[test]
fn every_bare_valued_option_refuses_a_recognized_token_as_its_value() {
    for name in [
        "--since",
        "--until",
        "--path",
        "--format",
        "--max-commits",
        "--diff",
    ] {
        for recognized in ["--busy", "--json"] {
            let raw = args(&[name, recognized]);
            let err = Arguments::parse(&raw).expect_err(name);
            assert!(
                err.contains(name) && err.contains("requires a value"),
                "{name} before {recognized}: {err}"
            );
        }
    }
}

#[test]
fn the_reported_silent_acceptance_cases_are_named_errors() {
    for (raw, expected) in [
        (&["--quiet"][..], "unknown argument `--quiet`"),
        (
            &["--offline=false"][..],
            "`--offline` does not take a value",
        ),
        (
            &["--offline", "--path", "--busy", "--json"][..],
            "`--path` requires a value",
        ),
    ] {
        let raw = args(raw);
        let err = Arguments::parse(&raw).expect_err(expected);
        assert!(err.contains(expected), "{err}");
    }
}

#[test]
fn options_can_surround_the_verb_and_repeated_paths_survive() {
    let raw = args(&[
        "--since",
        "first",
        "--path",
        "/a",
        "--json",
        "--path=/b",
        "--since=last",
    ]);
    let parsed = Arguments::parse(&raw).expect("valid ordering");
    assert_eq!(parsed.verb(), Verb::Json);
    assert_eq!(parsed.value("--since"), Some("last"));

    let config = load_with_parsed_args(&parsed, Config::default()).expect("config");
    assert_eq!(config.extra_paths, vec!["/a".to_string(), "/b".to_string()]);
}

#[test]
fn an_inline_value_may_begin_with_dashes() {
    let raw = args(&["--path=--busy"]);
    let parsed = Arguments::parse(&raw).expect("inline path");
    assert_eq!(parsed.value("--path"), Some("--busy"));
}

#[test]
fn defaults_unknown_arguments_and_second_verbs_remain_strict() {
    let none = args(&[]);
    assert_eq!(Arguments::parse(&none).unwrap().verb(), Verb::Report);

    for raw in [
        &["--markdown", "--offline --path /x"][..],
        &["--typo"][..],
        &["extra"][..],
    ] {
        let raw = args(raw);
        let err = Arguments::parse(&raw).expect_err("unknown argument");
        assert!(err.contains("unknown argument"), "{err}");
    }

    let two_verbs = args(&["--json", "--markdown"]);
    let err = Arguments::parse(&two_verbs).expect_err("second verb");
    assert!(err.contains("second verb"), "{err}");
}

#[test]
fn help_bypasses_invalid_trailing_input() {
    let raw = args(&["--help", "--offline=false", "--typo", "--json"]);
    assert_eq!(Arguments::parse(&raw).expect("help").verb(), Verb::Help);
}

#[test]
fn each_argument_error_is_spelt_out() {
    assert_eq!(
        load(&["--max-commits", "many"]).unwrap_err(),
        "--max-commits many: invalid digit found in string"
    );
    assert_eq!(
        load(&["--max-commits="]).unwrap_err(),
        "--max-commits : cannot parse integer from empty string"
    );
    assert_eq!(
        load(&["--max-commits=99999999999999999999"]).unwrap_err(),
        "--max-commits 99999999999999999999: number too large to fit in target type"
    );
    assert_eq!(load(&["--max-commits", " 7 "]).unwrap().max_commits, 7);
    assert_eq!(
        load(&["--weekly", "--since-last"]).unwrap_err(),
        "--weekly and --since-last are mutually exclusive"
    );
    assert_eq!(
        load(&["--monthly", "--until", "now"]).unwrap_err(),
        "--monthly and --until are mutually exclusive: a rollup covers a calendar month, which \
         is the whole point of asking for one"
    );
}

#[test]
fn the_flags_change_what_they_name() {
    let config = load(&[
        "--busy",
        "--offline",
        "--no-siblings",
        "--by-agent",
        "--fail-if-empty",
        "--until",
        "noon",
    ])
    .unwrap();
    assert!(!config.include_quiet);
    assert!(config.offline);
    assert!(!config.include_siblings);
    assert!(config.by_agent);
    assert!(config.fail_if_empty);
    assert_eq!(config.until, Some("noon".to_string()));
    assert!(load(&["--all"]).unwrap().include_quiet);
    assert!(load(&["--since-last"]).unwrap().since_last);
}

#[test]
fn only_a_run_a_person_reads_is_recorded() {
    for (list, format, recorded) in [
        (&[][..], Format::Text, true),
        (&["--markdown"][..], Format::Markdown, true),
        (&["--slack"][..], Format::Slack, true),
        (&["--html"][..], Format::Html, true),
        (&["--json"][..], Format::Json, false),
        (&["--format", "json"][..], Format::Json, false),
        // A format asked for by name wins over the verb.
        (&["--json", "--format", "text"][..], Format::Text, true),
    ] {
        let parsed = Arguments::parse(&args(list)).unwrap();
        let config = load_with_parsed_args(&parsed, Config::default()).unwrap();
        let config = settle(config, &parsed);
        assert_eq!(config.format, format, "{list:?}");
        assert_eq!(config.record_run, recorded, "{list:?}");
    }
}

#[test]
fn a_quiet_run_fails_only_where_asked() {
    let plain = load(&[]).unwrap();
    let strict = load(&["--fail-if-empty"]).unwrap();
    assert_eq!(empty_status(&plain, true), 0);
    assert_eq!(empty_status(&strict, false), 0);
    assert_eq!(empty_status(&strict, true), EXIT_EMPTY);
    assert_eq!(EXIT_EMPTY, 2);
}

fn file() -> FileConfig {
    FileConfig {
        since: None,
        format: None,
        max_commits: None,
        include_quiet: None,
        git_timeout_seconds: None,
        ignore: None,
    }
}

#[test]
fn a_config_file_goes_under_the_command_line() {
    let (config, complaint) = load_file(FileConfig {
        since: Some("yesterday".to_string()),
        format: Some("markdown".to_string()),
        max_commits: Some(3),
        include_quiet: Some(false),
        git_timeout_seconds: Some(7),
        ignore: Some(Vec::new()),
    });
    assert_eq!(complaint, None);
    assert_eq!(config.since, "yesterday");
    assert!(config.since_is_explicit);
    assert_eq!(config.format, Format::Markdown);
    assert_eq!(config.max_commits, 3);
    assert!(!config.include_quiet);
    assert_eq!(config.git_timeout, 7);
    assert!(config.ignore.is_empty());

    let config = load_with_args(&args(&["--max-commits=4", "--all"]), config).unwrap();
    assert_eq!(config.max_commits, 4);
    assert!(config.include_quiet);
    assert_eq!(config.since, "yesterday");
}

#[test]
fn a_bad_config_file_is_a_complaint_and_no_more() {
    let (config, complaint) = load_file(FileConfig {
        since: Some("  ".to_string()),
        format: Some("yaml".to_string()),
        git_timeout_seconds: Some(0),
        ..file()
    });
    assert_eq!(config, Config::default());
    let complaint = complaint.expect("a complaint");
    assert_eq!(complaint, Format::parse("yaml").unwrap_err());
    assert!(complaint.contains("yaml"), "{complaint}");
    assert_eq!(load_file(file()), (Config::default(), None));
}

fn environment() -> Environment {
    Environment {
        plugin_id: None,
        plugin_state_dir: None,
        plugin_config_dir: None,
        xdg_state_home: None,
        xdg_config_home: None,
        home: Some("/home/you".to_string()),
        temp_dir: "/tmp".to_string(),
    }
}

#[test]
fn a_blank_variable_is_unset() {
    assert_eq!(non_empty_env(&None), None);
    assert_eq!(non_empty_env(&Some("  ".to_string())), None);
    assert_eq!(
        non_empty_env(&Some(" x".to_string())),
        Some(" x".to_string())
    );
}

#[test]
fn directories_follow_the_environment() {
    let env = environment();
    assert_eq!(plugin_id(&env), "moneycaringcoder.standup");
    assert_eq!(
        state_dir(&env),
        "/home/you/.local/state/herdr/plugins/moneycaringcoder.standup"
    );
    assert_eq!(
        config_file(&env),
        "/home/you/.config/herdr/plugins/config/moneycaringcoder.standup/config.json"
    );

    let env = Environment {
        plugin_id: Some("mine".to_string()),
        xdg_state_home: Some("/var/state".to_string()),
        // A relative base directory is no base directory.
        xdg_config_home: Some("config".to_string()),
        ..environment()
    };
    assert_eq!(state_dir(&env), "/var/state/herdr/plugins/mine");
    assert_eq!(config_dir(&env), "/home/you/.config/herdr/plugins/config/mine");

    let env = Environment {
        home: Some(" ".to_string()),
        ..environment()
    };
    assert_eq!(
        state_dir(&env),
        "/tmp/herdr-no-home/herdr/plugins/moneycaringcoder.standup"
    );
}

#[test]
fn the_hosts_directories_win() {
    let env = Environment {
        plugin_state_dir: Some("/host/state".to_string()),
        plugin_config_dir: Some("/host/config".to_string()),
        xdg_state_home: Some("/var/state".to_string()),
        ..environment()
    };
    assert_eq!(last_run_file(&env), "/host/state/last-run.json");
    assert_eq!(cache_file(&env), "/host/state/plumbing-cache.json");
    assert_eq!(date_ref_repo(&env), "/host/state/dateref.git");
    assert_eq!(config_file(&env), "/host/config/config.json");
}
