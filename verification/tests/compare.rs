use standup::compare::{check_digest, compare, judge_schema, movement, rank, unreadable_digest};
use standup::config::{Config, Format};
use standup::model::{
    Activity, CheckoutDigest, CheckoutReport, Churn, Commit, Digest, Dirty, Head, Landed, Movement,
    RepoDigest, RepoKey, Stamp, Tracking, Unpushed, Window, WindowSource, SCHEMA_VERSION,
};
use standup::render::render_comparison;

fn stamp(epoch: i64, local: &str) -> Stamp {
    Stamp {
        epoch,
        local: local.to_string(),
        zone: "UTC +0000".to_string(),
        offset_seconds: Some(0),
    }
}

fn commit(oid: &str) -> Commit {
    Commit {
        oid: oid.to_string(),
        author: "Ada".to_string(),
        committed: stamp(7, "2026-08-15 09:00"),
        subject: "Work".to_string(),
        is_merge: false,
        insertions: 0,
        deletions: 0,
        files: Vec::new(),
    }
}

fn checkout(path: &str, oids: &[&str], merged: bool, held: u64, changed: usize) -> CheckoutDigest {
    CheckoutDigest {
        report: CheckoutReport {
            path: path.to_string(),
            repo_key: RepoKey("/repo/.git".to_string()),
            repo_root: "/repo".to_string(),
            is_linked_worktree: false,
            head: Head::Branch {
                name: "feat".to_string(),
                oid: "aaaa".to_string(),
            },
            commits: oids.iter().map(|oid| commit(oid)).collect(),
            churn: Churn::default(),
            dirty: Dirty {
                tracked_changed: changed,
                ..Dirty::default()
            },
            tracking: Tracking::NoUpstream,
            landed: if merged {
                Landed::Merged {
                    into: "main".to_string(),
                }
            } else {
                Landed::NotMerged {
                    into: "main".to_string(),
                }
            },
            unpushed: Unpushed::Commits { count: held },
            problems: Vec::new(),
        },
        workspaces: Vec::new(),
        agents: Vec::new(),
    }
}

#[test]
fn each_movement_is_told_apart() {
    let was = checkout("/r", &["a"], false, 2, 0);
    for (now, expected) in [
        (
            checkout("/r", &["a", "b", "c"], true, 0, 0),
            Movement::Advanced {
                commits: 2,
                landed: true,
            },
        ),
        (
            checkout("/r", &["b"], false, 0, 0),
            Movement::Advanced {
                commits: 1,
                landed: false,
            },
        ),
        (checkout("/r", &["a"], true, 0, 0), Movement::Landed),
        (
            checkout("/r", &["a"], false, 0, 0),
            Movement::Pushed { was_holding: 2 },
        ),
        (
            checkout("/r", &["a"], false, 2, 1),
            Movement::Stalled {
                unpushed: 2,
                uncommitted: true,
            },
        ),
    ] {
        assert_eq!(movement(Some(&was), &now), expected);
    }
    let resting = checkout("/r", &["a"], false, 0, 0);
    assert_eq!(movement(Some(&resting), &resting), Movement::Unchanged);
    assert_eq!(movement(None, &was), Movement::Appeared { commits: 1 });
}

#[test]
fn each_movement_has_its_words() {
    for (movement, words, loud) in [
        (Movement::Appeared { commits: 0 }, "new here", false),
        (
            Movement::Appeared { commits: 3 },
            "new here, with 3 in the window",
            false,
        ),
        (
            Movement::Advanced {
                commits: 2,
                landed: true,
            },
            "2 new since, and landed",
            false,
        ),
        (Movement::Landed, "landed since", false),
        (
            Movement::Pushed { was_holding: 2 },
            "pushed since; 2 no longer only here",
            false,
        ),
        (
            Movement::Stalled {
                unpushed: 1,
                uncommitted: true,
            },
            "no new commits, still holding 1 unpushed and uncommitted work",
            true,
        ),
        (
            Movement::Gone { was_holding: 4 },
            "gone, and was holding 4 that were only there",
            true,
        ),
        (Movement::Gone { was_holding: 0 }, "gone", false),
        (Movement::Unchanged, "unchanged", false),
    ] {
        assert_eq!(movement.sentence(), words);
        assert_eq!(movement.loud(), loud, "{words}");
    }
    assert_eq!(Movement::Unchanged.activity(), Activity::Quiet);
    assert_eq!(Movement::Landed.activity(), Activity::Active);
}

fn repo(name: &str, commits: usize, checkouts: Vec<CheckoutDigest>) -> RepoDigest {
    RepoDigest {
        repo_key: RepoKey(format!("/{name}/.git")),
        name: name.to_string(),
        repo_root: format!("/{name}"),
        checkouts,
        commits,
        churn: Churn::default(),
        active_days: 0,
    }
}

fn digest(local: &str, repos: Vec<RepoDigest>) -> Digest {
    Digest {
        schema: SCHEMA_VERSION,
        generated_at: stamp(9, local),
        window: Window {
            since: stamp(1, "2026-08-15 00:00"),
            until: None,
            source: WindowSource::Default,
        },
        repos,
        notes: Vec::new(),
    }
}

fn earlier() -> Digest {
    digest(
        "2026-08-15 09:00",
        vec![
            repo("alder", 1, vec![checkout("/alder", &["a"], false, 0, 0)]),
            repo(
                "birch",
                1,
                vec![
                    checkout("/birch", &["b"], false, 0, 0),
                    checkout("/birch-wt", &[], false, 3, 0),
                ],
            ),
            repo("cedar", 0, vec![checkout("/cedar", &[], false, 0, 0)]),
        ],
    )
}

fn later() -> Digest {
    digest(
        "2026-08-15 17:00",
        vec![
            repo("alder", 3, vec![checkout("/alder", &["a", "x", "y"], false, 0, 0)]),
            repo("birch", 1, vec![checkout("/birch", &["b"], false, 0, 0)]),
            repo("dogwood", 1, vec![checkout("/dogwood", &["d"], false, 0, 0)]),
        ],
    )
}

#[test]
fn a_comparison_covers_both_digests() {
    let found = compare(&earlier(), &later());
    assert_eq!(found.before.local, "2026-08-15 09:00");
    assert_eq!(found.after.local, "2026-08-15 17:00");
    let names: Vec<&str> = found.repos.iter().map(|repo| repo.name.as_str()).collect();
    // What vanished while holding commits comes above all.
    assert_eq!(names, ["birch", "alder", "dogwood", "cedar"]);
    assert_eq!(rank(&found.repos[0]), 5);
    assert_eq!(
        found.repos[0].checkouts,
        [
            ("/birch".to_string(), Movement::Unchanged),
            (
                "/birch-wt".to_string(),
                Movement::Gone { was_holding: 3 }
            )
        ]
    );
    assert_eq!(
        found.repos[1].checkouts[0].1,
        Movement::Advanced {
            commits: 2,
            landed: false
        }
    );
    assert_eq!(found.repos[2].checkouts[0].1, Movement::Appeared { commits: 1 });
    assert_eq!(found.repos[3].checkouts[0].1, Movement::Gone { was_holding: 0 });
    assert_eq!(found.total_commits(), 3);
    assert!(!found.is_quiet());
}

#[test]
fn a_digest_compared_with_itself_is_at_rest() {
    let found = compare(
        &digest("x", vec![repo("alder", 1, vec![checkout("/alder", &["a"], false, 0, 0)])]),
        &digest("y", vec![repo("alder", 1, vec![checkout("/alder", &["a"], false, 0, 0)])]),
    );
    assert!(found.is_quiet());
    assert_eq!(found.total_commits(), 0);
    // Quiet only where nothing in it would be lost.
    for (held, changed) in [(2, 0), (0, 1)] {
        let holding = || {
            let here = checkout("/alder", &["a"], false, held, changed);
            digest("x", vec![repo("alder", 1, vec![here])])
        };
        let found = compare(&holding(), &holding());
        assert!(!found.is_quiet());
        assert_eq!(found.total_commits(), 0);
        assert_eq!(
            found.repos[0].checkouts[0].1,
            Movement::Stalled {
                unpushed: held,
                uncommitted: changed > 0
            }
        );
    }
}

fn config(format: Format) -> Config {
    Config {
        format,
        ..Config::default()
    }
}

#[test]
fn a_comparison_is_rendered_in_every_format() {
    let found = compare(&earlier(), &later());
    let text = render_comparison(&found, &config(Format::Text)).unwrap();
    assert!(
        text.starts_with(
            "standup — what changed between 2026-08-15 09:00 UTC +0000 and 2026-08-15 17:00\n  UTC \
             +0000\n"
        ),
        "{text}"
    );
    assert!(text.contains("  3 new commits across 4 repositories\n"), "{text}");
    assert!(text.contains("gone, and was holding 3 that were only there"), "{text}");
    let markdown = render_comparison(&found, &config(Format::Markdown)).unwrap();
    assert!(
        markdown.starts_with(
            "**standup** — what changed between **2026-08-15 09:00 UTC +0000** and **2026-08-15 \
             17:00 UTC +0000**\n\n3 new commits across 4 repositories.\n\n"
        ),
        "{markdown}"
    );
    let slack = render_comparison(&found, &config(Format::Slack)).unwrap();
    assert!(slack.contains("2 new since"), "{slack}");
    let html = render_comparison(&found, &config(Format::Html)).unwrap();
    assert!(html.contains("new here, with 1 in the window"), "{html}");
    assert_eq!(render_comparison(&found, &config(Format::Json)), None);

    let still = compare(&digest("x", Vec::new()), &digest("y", Vec::new()));
    let text = render_comparison(&still, &config(Format::Text)).unwrap();
    assert!(
        text.contains("Neither digest found a repository, so there is nothing to compare."),
        "{text}"
    );
}

#[test]
fn a_saved_digest_is_judged_by_its_schema() {
    assert_eq!(check_digest("{\"schema\": 1, \"repos\": []}", "/d.json"), Ok(()));
    assert_eq!(
        check_digest("{\"schema\": 9}", "/d.json"),
        Err(
            "/d.json was written with schema 9, and this standup reads 1. Regenerate it with \
             `standup --json`."
                .to_string()
        )
    );
    let told = check_digest("{\"schema\": \"1\"}", "/d.json").unwrap_err();
    assert!(told.starts_with("/d.json has no `schema` field"), "{told}");
    let told = check_digest("[1", "/d.json").unwrap_err();
    assert!(told.starts_with("/d.json is not JSON standup wrote: "), "{told}");
    assert!(told.len() > "/d.json is not JSON standup wrote: ".len());
    assert_eq!(judge_schema("/d", Ok(Some(1))), Ok(()));
    assert_eq!(
        judge_schema("/d", Err("trailing comma".to_string())),
        Err("/d is not JSON standup wrote: trailing comma".to_string())
    );
    assert_eq!(
        unreadable_digest("/d", "gone"),
        "could not read the digest at /d: gone"
    );
}
