use standup::config::{Config, Format};
use standup::model::{
    Activity, AgentRef, CheckoutDigest, CheckoutReport, Churn, Commit, Digest, Dirty, Equivalence,
    Head, Landed, Note, Period, RepoDigest, RepoKey, Stamp, Tracking, Unpushed, Window,
    WindowSource, SCHEMA_VERSION,
};
use standup::render::{markdown, slack};
use standup::render::{
    display_width, home_relative, landed_sentence, listed_commits, render, shorten_path,
    sorted_checkouts, sorted_commits, sorted_repos, tracking_sentence, truncate_middle,
    truncate_right, unpushed_sentence, window_note,
};

const HOME: &str = "/home/you";

fn at(local: &str) -> Stamp {
    let minute = |from: usize| local[from..from + 2].parse::<i64>().unwrap();
    Stamp {
        epoch: 1_786_752_000 + minute(11) * 3_600 + minute(14) * 60,
        local: local.to_string(),
        zone: "UTC +0000".to_string(),
        offset_seconds: Some(0),
    }
}

fn commit(time: &str, oid: &str, subject: &str, is_merge: bool) -> Commit {
    Commit {
        oid: oid.to_string(),
        author: "Ada Bexley".to_string(),
        committed: at(&format!("2026-08-15 {time}")),
        subject: subject.to_string(),
        is_merge,
        insertions: 0,
        deletions: 0,
        files: Vec::new(),
    }
}

fn agent(name: Option<&str>, program: Option<&str>) -> AgentRef {
    AgentRef {
        name: name.map(str::to_string),
        program: program.map(str::to_string),
        session_id: Some("session-9".to_string()),
        pane_id: "w1:p1".to_string(),
        status: None,
        cwd: None,
    }
}

fn churn(files: usize, insertions: u64, deletions: u64) -> Churn {
    Churn {
        files,
        excluded: 0,
        insertions,
        deletions,
    }
}

fn checkout(path: &str, head: Head, landed: Landed, tracking: Tracking) -> CheckoutDigest {
    CheckoutDigest {
        report: CheckoutReport {
            path: format!("{HOME}/code/{path}"),
            repo_key: RepoKey("/repo/.git".to_string()),
            repo_root: "/repo".to_string(),
            is_linked_worktree: true,
            head,
            commits: Vec::new(),
            churn: churn(0, 0, 0),
            dirty: Dirty::default(),
            tracking,
            landed,
            unpushed: Unpushed::Commits { count: 0 },
            problems: Vec::new(),
        },
        workspaces: Vec::new(),
        agents: Vec::new(),
    }
}

fn on_branch(name: &str) -> Head {
    Head::Branch {
        name: name.to_string(),
        oid: "aaaaaaaaaaaaaaaa".to_string(),
    }
}

fn main_branch() -> String {
    "origin/main".to_string()
}

fn quiet(name: &str) -> RepoDigest {
    RepoDigest {
        repo_key: RepoKey(format!("/{name}/.git")),
        name: name.to_string(),
        repo_root: format!("/{name}"),
        checkouts: vec![checkout(
            name,
            on_branch("main"),
            Landed::IsDefault {
                name: main_branch(),
            },
            Tracking::NoUpstream,
        )],
        commits: 0,
        churn: churn(0, 0, 0),
        active_days: 0,
    }
}

fn lanternfish() -> RepoDigest {
    let bump = || commit("06:12", "6952a74700000000", "Bump the media timeout to 30s", false);
    let mut salvage = checkout(
        "lanternfish/wt-salvage",
        Head::BranchDeleted {
            name: "wip/salvage".to_string(),
        },
        Landed::Unknown {
            reason: "HEAD has no commit, so nothing can have landed on origin/main".to_string(),
        },
        Tracking::NotApplicable,
    );
    salvage.report.dirty = Dirty {
        tracked_changed: 4,
        untracked: 1,
        conflicted: 0,
        insertions: 6,
        deletions: 0,
    };
    let mut throughput = checkout(
        "lanternfish/wt-throughput",
        on_branch("fix/media-fetch-throughput"),
        Landed::NotMerged {
            into: main_branch(),
        },
        Tracking::Upstream {
            name: "origin/fix/media-fetch-throughput".to_string(),
            ahead: 0,
            behind: 0,
        },
    );
    throughput.agents = vec![
        agent(Some("kestrel"), Some("opencode")),
        agent(Some("wren"), Some("aider")),
    ];
    throughput.report.commits = vec![
        bump(),
        commit("07:58", "da24c3f200000000", "Drop the per-item retry loop", false),
        commit("08:31", "9c4fdd3600000000", "Add a throughput regression test", false),
        commit("09:04", "2eccdd1400000000", "Batch media fetches behind a semaphore", false),
    ];
    throughput.report.churn = churn(4, 10, 1);
    throughput.report.dirty = Dirty {
        tracked_changed: 1,
        untracked: 1,
        conflicted: 0,
        insertions: 1,
        deletions: 0,
    };
    let mut trunk = checkout(
        "lanternfish",
        on_branch("main"),
        Landed::IsDefault {
            name: main_branch(),
        },
        Tracking::Upstream {
            name: main_branch(),
            ahead: 2,
            behind: 0,
        },
    );
    trunk.report.is_linked_worktree = false;
    trunk.report.commits = vec![
        bump(),
        commit("05:40", "30eb8d7f00000000", "Merge chore/deps", true),
        commit("05:40", "641ab74900000000", "Pin serde to 1.x", false),
    ];
    trunk.report.churn = churn(4, 6, 0);
    let mut spike = checkout(
        "lanternfish/wt-spike",
        on_branch("spike/av1"),
        Landed::Merged {
            into: main_branch(),
        },
        Tracking::NoUpstream,
    );
    spike.report.commits = vec![bump()];
    spike.report.churn = churn(3, 5, 0);
    RepoDigest {
        repo_key: RepoKey("/lanternfish/.git".to_string()),
        name: "lanternfish".to_string(),
        repo_root: format!("{HOME}/code/lanternfish"),
        checkouts: vec![spike, trunk, salvage, throughput],
        commits: 6,
        churn: churn(5, 11, 1),
        active_days: 1,
    }
}

fn digest(repos: Vec<RepoDigest>) -> Digest {
    Digest {
        schema: SCHEMA_VERSION,
        generated_at: at("2026-08-15 23:15"),
        window: Window {
            since: at("2026-08-15 00:00"),
            until: None,
            source: WindowSource::Default,
        },
        repos,
        notes: Vec::new(),
    }
}

fn busy() -> Digest {
    digest(vec![
        quiet("quillmark"),
        lanternfish(),
        quiet("tidepool"),
        quiet("brambleway"),
    ])
}

fn config(format: Format) -> Config {
    Config {
        format,
        home: Some(HOME.to_string()),
        ..Config::default()
    }
}

/// Compares line by line, so that a failure shows the line.
fn same_lines(found: &str, expected: &str) {
    for (found, expected) in found.lines().zip(expected.lines()) {
        assert_eq!(found, expected);
    }
    assert_eq!(found, expected);
}

#[test]
fn the_text_digest_reads_as_documented() {
    let expected = "\
standup — since 2026-08-15 00:00 UTC +0000 (generated 23:15)

  6 commits  ·  5 files  +11 −1  across 4 repositories

  lanternfish                                      6 commits  ·  5 files  +11 −1
    wip/salvage                 ~/code/lanternfish/wt-salvage
      ! the branch wip/salvage was deleted underneath this checkout
      no commits in this window, merge status unknown: HEAD has no commit, so
        nothing can have landed on origin/main, no branch to track
      uncommitted: 4 files changed, 1 untracked, +6 −0
    fix/media-fetch-throughput  ~/code/lanternfish/wt-throughput
      agents: kestrel (opencode), wren (aider)
      4 commits, 4 files, +10 −1, not merged into origin/main, in sync with
        origin/fix/media-fetch-thro…
      uncommitted: 1 file changed, 1 untracked, +1 −0
        09:04  2eccdd14  Batch media fetches behind a semaphore
        08:31  9c4fdd36  Add a throughput regression test
        07:58  da24c3f2  Drop the per-item retry loop
        06:12  6952a747  Bump the media timeout to 30s
    main                        ~/code/lanternfish
      authors: Ada Bexley
      3 commits (1 merge), 4 files, +6 −0, on the default branch origin/main, 2
        ahead of origin/main
        06:12  6952a747  Bump the media timeout to 30s
        05:40  30eb8d7f  Merge chore/deps
        05:40  641ab749  Pin serde to 1.x
    spike/av1                   ~/code/lanternfish/wt-spike
      authors: Ada Bexley
      1 commit, 3 files, +5 −0, merged into origin/main, no upstream
        06:12  6952a747  Bump the media timeout to 30s

  quiet: brambleway, quillmark, tidepool
";
    same_lines(&render(&busy(), &config(Format::Text)).unwrap(), expected);
}

#[test]
fn the_markdown_digest_is_a_nested_list() {
    let found = render(&busy(), &config(Format::Markdown)).unwrap();
    let lines: Vec<&str> = found.lines().collect();
    assert_eq!(
        lines[..7],
        [
            "**standup** — since 2026-08-15 00:00 UTC +0000 (generated 23:15)",
            "",
            "6 commits, 5 files, +11 −1 across 4 repositories.",
            "",
            "- **lanternfish** — 6 commits, 5 files, +11 −1",
            "  - `wip/salvage` — `~/code/lanternfish/wt-salvage` — no commits in this window — merge \
             status unknown: HEAD has no commit, so nothing can have landed on origin/main — no \
             branch to track",
            "    - **problem:** the branch wip/salvage was deleted underneath this checkout",
        ]
    );
    assert_eq!(lines[7], "    - uncommitted: 4 files changed, 1 untracked, +6 −0");
    assert!(lines.contains(
        &"  - `fix/media-fetch-throughput` — `~/code/lanternfish/wt-throughput` — 4 commits, 4 \
          files, +10 −1 — not merged into origin/main — in sync with \
          origin/fix/media-fetch-throughput"
    ));
    assert!(lines.contains(&"    - agents: kestrel (opencode), wren (aider)"));
    assert!(lines.contains(&"    - `09:04` `2eccdd14` — Batch media fetches behind a semaphore"));
    assert_eq!(
        lines[lines.len() - 1],
        "Quiet: brambleway, quillmark, tidepool."
    );
}

/// Only the JSON output carries an agent's session id.
#[test]
fn no_human_format_shows_a_session_id() {
    for format in [Format::Text, Format::Markdown, Format::Slack, Format::Html] {
        let found = render(&busy(), &config(format)).unwrap();
        assert!(found.contains("kestrel"), "{format:?}");
        assert!(!found.contains("session-9"), "{format:?}");
    }
    assert_eq!(render(&busy(), &config(Format::Json)), None);
}

/// A subject is somebody's text, and no renderer lets it be markup.
#[test]
fn a_subject_is_escaped_everywhere() {
    let mut repo = quiet("repo");
    repo.checkouts[0].report.commits =
        vec![commit("09:04", "aaaaaaaa", "# <b>*bold*</b> & [link]", false)];
    repo.commits = 1;
    let digest = digest(vec![repo]);
    let found = |format| render(&digest, &config(format)).unwrap();
    assert!(found(Format::Text).contains("# <b>*bold*</b> & [link]"));
    assert!(found(Format::Markdown).contains("\\# \\<b\\>\\*bold\\*\\</b\\> \\& \\[link\\]"));
    assert!(found(Format::Slack).contains("&lt;b&gt;"));
    assert!(found(Format::Html).contains("&lt;b&gt;*bold*&lt;/b&gt; &amp; [link]"));
    assert!(!found(Format::Html).contains("<b>"));
}

#[test]
fn the_slack_and_html_digests_say_the_same() {
    let slack = render(&busy(), &config(Format::Slack)).unwrap();
    assert!(slack.starts_with("*standup* — since 2026-08-15 00:00 UTC +0000 (generated 23:15)\n"));
    assert!(slack.ends_with("\nQuiet: brambleway, quillmark, tidepool.\n"));
    assert!(slack.contains("the branch wip/salvage was deleted underneath this checkout"));
    let html = render(&busy(), &config(Format::Html)).unwrap();
    assert!(html.starts_with("<!doctype html>\n"));
    assert!(html.ends_with("</div>\n</body>\n</html>\n"));
    assert!(html.contains("the branch wip/salvage was deleted underneath this checkout"));
    assert!(html.contains("Batch media fetches behind a semaphore"));
}

#[test]
fn every_note_is_in_every_digest() {
    let mut digest = busy();
    digest.notes = vec![
        Note::warning("herdr is not reachable".to_string()),
        Note::info("first run".to_string()),
    ];
    for format in [Format::Text, Format::Markdown, Format::Slack, Format::Html] {
        let found = render(&digest, &config(format)).unwrap();
        assert!(found.contains("herdr is not reachable"), "{format:?}");
        assert!(found.contains("first run"), "{format:?}");
    }
}

#[test]
fn a_quiet_digest_says_that_it_is() {
    let found = render(&digest(vec![quiet("tidepool")]), &config(Format::Text)).unwrap();
    assert!(!found.contains("commit "), "{found}");
    assert!(found.contains("quiet: tidepool"), "{found}");
}

#[test]
fn the_commit_list_is_cut_and_says_by_how_much() {
    let repo = lanternfish();
    let busiest = sorted_checkouts(&repo)[1];
    let (shown, rest) = listed_commits(&busiest.report, 3);
    assert_eq!((shown.len(), rest), (3, 1));
    let config = Config {
        max_commits: 3,
        ..config(Format::Markdown)
    };
    let found = render(&busy(), &config).unwrap();
    assert!(found.contains("    - … 1 more commit not listed\n"), "{found}");
}

#[test]
fn the_loudest_comes_first() {
    let digest = busy();
    let names: Vec<&str> = sorted_repos(&digest)
        .iter()
        .map(|repo| repo.name.as_str())
        .collect();
    assert_eq!(names, ["lanternfish", "brambleway", "quillmark", "tidepool"]);
    let repo = lanternfish();
    let activity: Vec<Activity> = sorted_checkouts(&repo)
        .iter()
        .map(|checkout| checkout.report.activity())
        .collect();
    assert_eq!(activity[0], Activity::Broken);
    assert_eq!(activity[1..], [Activity::Active; 3]);
    let latest = sorted_commits(&sorted_checkouts(&repo)[1].report);
    assert_eq!(latest[0].committed.local, "2026-08-15 09:04");
}

#[test]
fn a_rollup_lists_no_commits() {
    let mut digest = busy();
    digest.window.source = WindowSource::Rollup {
        period: Period::Week,
    };
    assert_eq!(
        window_note(&digest.window),
        Some("window from --weekly: this ISO week, Monday to now".to_string())
    );
    let found = render(&digest, &config(Format::Text)).unwrap();
    assert!(!found.contains("Batch media fetches"), "{found}");
}

#[test]
fn each_state_of_a_landing_has_its_sentence() {
    let into = main_branch;
    for (landed, expected) in [
        (
            Landed::IsDefault { name: into() },
            "on the default branch origin/main",
        ),
        (Landed::Merged { into: into() }, "merged into origin/main"),
        (
            Landed::Equivalent {
                into: into(),
                how: Equivalence::EveryCommit { commits: 2 },
            },
            "every commit is on origin/main by patch, not by sha",
        ),
        (
            Landed::Equivalent {
                into: into(),
                how: Equivalence::Squashed {
                    oid: "0123456789abcdef".to_string(),
                },
            },
            "on origin/main by patch as 01234567, not by sha",
        ),
        (
            Landed::NotMerged { into: into() },
            "not merged into origin/main",
        ),
        (
            Landed::Unknown {
                reason: "no trunk".to_string(),
            },
            "merge status unknown: no trunk",
        ),
    ] {
        assert_eq!(landed_sentence(&landed, 40), expected);
    }
}

#[test]
fn each_state_of_an_upstream_has_its_sentence() {
    let upstream = |ahead, behind| Tracking::Upstream {
        name: main_branch(),
        ahead,
        behind,
    };
    for (tracking, expected) in [
        (Tracking::NotApplicable, "no branch to track"),
        (Tracking::NoUpstream, "no upstream"),
        (upstream(0, 0), "in sync with origin/main"),
        (upstream(2, 0), "2 ahead of origin/main"),
    ] {
        assert_eq!(tracking_sentence(&tracking, 40), expected);
    }
    assert_eq!(
        unpushed_sentence(&Unpushed::Commits { count: 1 }),
        Some("unpushed: 1 commit on no remote".to_string())
    );
    assert_eq!(unpushed_sentence(&Unpushed::NoRemote), None);
}

#[test]
fn what_is_cut_fits_and_what_fits_is_not_cut() {
    assert_eq!(truncate_right("abcdef", 6), "abcdef");
    assert_eq!(truncate_right("abcdef", 4), "abc…");
    assert_eq!(truncate_middle("abcdef", 6), "abcdef");
    assert_eq!(display_width(&truncate_middle("abcdefghij", 5)), 5);
    // A wide character takes two columns.
    assert_eq!(display_width("日本"), 4);
    assert_eq!(display_width(&truncate_right("日本語", 4)), 3);
}

#[test]
fn a_path_is_shown_from_home() {
    let home = Some(HOME.to_string());
    assert_eq!(home_relative("/home/you/code", &home), "~/code");
    assert_eq!(home_relative("/home/you", &home), "~");
    assert_eq!(home_relative("/home/yours", &home), "/home/yours");
    assert_eq!(home_relative("/home/you/code", &None), "/home/you/code");
    let short = shorten_path("/home/you/a/very/long/path/to/checkout", 20, &home);
    assert!(display_width(&short) <= 20, "{short}");
    assert!(short.ends_with("checkout"), "{short}");
}

const READ_BY_PEOPLE: [Format; 4] = [Format::Text, Format::Markdown, Format::Slack, Format::Html];

/// A failure never looks like a slow day, whatever the format and the grouping.
#[test]
fn every_problem_is_in_every_digest() {
    let mut repo = quiet("tidepool");
    repo.checkouts[0].report.problems = vec!["index.lock is held".to_string()];
    let digest = digest(vec![quiet("quillmark"), repo]);
    for format in READ_BY_PEOPLE {
        for by_agent in [false, true] {
            let config = Config {
                by_agent,
                ..config(format)
            };
            let found = render(&digest, &config).unwrap();
            assert!(found.contains("index.lock is held"), "{format:?} {by_agent}");
        }
        let found = render(&digest, &config(format)).unwrap();
        assert!(found.contains("tidepool"), "{format:?}");
        assert!(found.contains("quillmark"), "{format:?}");
    }
}

#[test]
fn an_agent_is_named_where_it_worked() {
    for format in READ_BY_PEOPLE {
        for by_agent in [false, true] {
            let config = Config {
                by_agent,
                ..config(format)
            };
            let found = render(&busy(), &config).unwrap();
            assert!(found.contains("kestrel (opencode)"), "{format:?} {by_agent}");
            assert!(found.contains("wren (aider)"), "{format:?} {by_agent}");
        }
    }
}

/// Two groups: what kestrel was placed in, and a worktree nobody was.
fn spread() -> Digest {
    let mut idle = quiet("quillmark");
    idle.checkouts[0].agents = vec![agent(Some("kestrel"), Some("opencode"))];
    let mut repo = quiet("tidepool");
    repo.checkouts[0].agents = vec![agent(Some("kestrel"), Some("opencode"))];
    repo.checkouts[0].report.commits =
        vec![commit("09:04", "2eccdd1400000000", "Batch media fetches", false)];
    repo.checkouts.push(checkout(
        "tidepool/wt",
        on_branch("spike"),
        Landed::Merged {
            into: main_branch(),
        },
        Tracking::NoUpstream,
    ));
    repo.commits = 1;
    digest(vec![idle, repo])
}

fn by_agent(format: Format) -> Config {
    Config {
        by_agent: true,
        ..config(format)
    }
}

#[test]
fn the_text_digest_is_grouped_by_agent() {
    let expected = "\
standup — since 2026-08-15 00:00 UTC +0000 (generated 23:15)
  grouped by agent, which interleaves unrelated projects — the default grouping
  is by repository

  1 commit  across 2 repositories

  kestrel — 1 commit

  tidepool                                                              1 commit
    main  ~/code/tidepool
      agents: kestrel (opencode)
      1 commit, on the default branch origin/main, no upstream
        09:04  2eccdd14  Batch media fetches

  quiet: quillmark

  no agent reported — no commits

  quiet: tidepool
";
    same_lines(&render(&spread(), &by_agent(Format::Text)).unwrap(), expected);
}

/// Grouping by agent is for every format that people read, and every one of
/// them says what it does to the numbers.
#[test]
fn every_format_is_grouped_by_agent() {
    for format in READ_BY_PEOPLE {
        let found = render(&spread(), &by_agent(format)).unwrap();
        let plain = render(&spread(), &config(format)).unwrap();
        for told in ["grouped by agent", "no agent reported", "quillmark", "tidepool"] {
            assert!(found.contains(told), "{format:?} {told}");
        }
        assert!(found.contains("kestrel"), "{format:?}");
        assert!(!plain.contains("grouped by agent"), "{format:?}");
        assert!(!plain.contains("no agent reported"), "{format:?}");
    }
    let found = render(&spread(), &by_agent(Format::Html)).unwrap();
    let told = [
        "kestrel — 1 commit</p>",
        "Quiet: quillmark.",
        "no agent reported — no commits</p>",
        "Quiet: tidepool.",
    ];
    let places: Vec<usize> = told
        .iter()
        .map(|told| found.find(told).expect(told))
        .collect();
    assert!(places.windows(2).all(|pair| pair[0] < pair[1]), "{found}");
}

/// A day on which no group has anything to report is stated.
#[test]
fn a_quiet_day_is_stated_when_grouped() {
    let digest = digest(vec![quiet("quillmark")]);
    for format in READ_BY_PEOPLE {
        let found = render(&digest, &by_agent(format)).unwrap();
        let told = "Nothing landed in this window, across 1 repository.";
        assert!(found.contains(told), "{format:?}");
    }
    for format in [Format::Text, Format::Html] {
        let found = render(&digest, &by_agent(format)).unwrap();
        assert!(found.contains("quillmark"), "{format:?}");
    }
}

/// The difference between an agent that did nothing and one that did a day of
/// work and never committed it.
#[test]
fn work_that_has_not_landed_is_in_every_digest() {
    let mut repo = quiet("tidepool");
    repo.checkouts[0].report.dirty = Dirty {
        tracked_changed: 4,
        untracked: 1,
        conflicted: 0,
        insertions: 6,
        deletions: 0,
    };
    repo.checkouts[0].report.unpushed = Unpushed::Commits { count: 3 };
    let digest = digest(vec![repo]);
    for format in READ_BY_PEOPLE {
        let found = render(&digest, &config(format)).unwrap();
        let dirty = "uncommitted: 4 files changed, 1 untracked, +6 −0";
        assert!(found.contains(dirty), "{format:?}");
        let unpushed = "unpushed: 3 commits on no remote";
        assert!(found.contains(unpushed), "{format:?}");
    }
}

#[test]
fn another_session_id_changes_nothing() {
    let mut other = busy();
    for repo in &mut other.repos {
        for checkout in &mut repo.checkouts {
            for agent in &mut checkout.agents {
                agent.session_id = None;
            }
        }
    }
    for format in READ_BY_PEOPLE {
        for by_agent in [false, true] {
            let config = Config {
                by_agent,
                ..config(format)
            };
            assert_eq!(render(&busy(), &config), render(&other, &config));
        }
    }
}

#[test]
fn prose_stays_prose_in_markdown() {
    assert_eq!(markdown::esc("# heading"), "\\# heading");
    assert_eq!(markdown::esc("- item"), "\\- item");
    assert_eq!(markdown::esc("1. first"), "1\\. first");
    assert_eq!(markdown::esc("## oops"), "\\## oops");
    assert_eq!(markdown::esc("###### six"), "\\###### six");
    assert_eq!(markdown::esc("####### seven"), "####### seven");
    assert_eq!(markdown::esc("###"), "\\###");
    assert_eq!(markdown::esc("12) twelve"), "12\\) twelve");
    assert_eq!(markdown::esc("12."), "12\\.");
    assert_eq!(markdown::esc("12.5 x"), "12.5 x");
    assert_eq!(markdown::esc("1.5 x"), "1\\.5 x");
    assert_eq!(markdown::esc("123456789. x"), "123456789\\. x");
    assert_eq!(markdown::esc("1234567890. x"), "1234567890. x");
    assert_eq!(markdown::esc("+30 lines"), "+30 lines");
    assert_eq!(markdown::esc("2026"), "2026");
    assert_eq!(markdown::esc("#tag 1."), "#tag 1.");
    assert_eq!(markdown::esc("two\nlines"), "two lines");
    assert_eq!(markdown::esc("feat/re[factor]"), "feat/re\\[factor\\]");
}

#[test]
fn a_code_span_ends_where_it_should() {
    assert_eq!(markdown::code("feat/a|b"), "`feat/a|b`");
    assert_eq!(markdown::code("a`b"), "``a`b``");
    assert_eq!(markdown::code("`a``"), "``` `a`` ```");
    assert_eq!(markdown::code(" \t"), "`(empty)`");
    assert_eq!(slack::code("a`b\tc"), "a'b c");
    assert_eq!(slack::code("feat/<x>&y"), "feat/&lt;x&gt;&amp;y");
}

#[test]
fn every_digest_states_its_window() {
    let mut ended = busy();
    ended.window.until = Some(at("2026-08-15 12:00"));
    for format in READ_BY_PEOPLE {
        let found = render(&ended, &config(format)).unwrap();
        assert!(found.contains("2026-08-15 00:00 UTC +0000"), "{format:?}");
        assert!(found.contains("2026-08-15 12:00 UTC +0000"), "{format:?}");
    }
}

#[test]
fn failing_if_empty_changes_no_output() {
    for format in READ_BY_PEOPLE {
        let strict = Config {
            fail_if_empty: true,
            ..config(format)
        };
        assert_eq!(render(&busy(), &strict), render(&busy(), &config(format)));
    }
}

/// A branch called `feat/<x>` arrives as a name, never as a link or a mention.
#[test]
fn nothing_in_a_slack_digest_starts_a_mention() {
    let mut repo = quiet("re<po>");
    let report = &mut repo.checkouts[0].report;
    report.head = on_branch("feat/<x>&y");
    report.path = format!("{HOME}/code/<!channel>");
    report.commits = vec![commit("09:04", "aa<aaaaa", "a < b && c > d", false)];
    report.problems = vec!["<oops>".to_string()];
    let found = render(&digest(vec![repo]), &config(Format::Slack)).unwrap();
    assert!(found.contains("`feat/&lt;x&gt;&amp;y` — `~/code/&lt;!channel&gt;`"), "{found}");
    assert!(found.contains("a &lt; b &amp;&amp; c &gt; d"), "{found}");
    assert!(!found.contains('<') && !found.contains('>'), "{found}");
    let bare = found
        .replace("&amp;", "")
        .replace("&lt;", "")
        .replace("&gt;", "");
    assert!(!bare.contains('&'), "{found}");
}

#[test]
fn widths_add_up() {
    for (a, b) in [("", "x"), ("e\u{301}\t", "漢字"), ("feat/", "branch")] {
        let both = format!("{a}{b}");
        assert_eq!(display_width(&both), display_width(a) + display_width(b));
    }
    assert_eq!(display_width(""), 0);
    assert_eq!(display_width("e\u{301}\t"), 1);
    assert_eq!(display_width("漢字"), 4);
}
