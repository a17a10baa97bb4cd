use standup::by_agent::{group, UNATTRIBUTED};
use standup::config::{Config, Format, Ignored};
use standup::git::identify::{CheckoutId, Identity, Worktrees};
use standup::model::{
    Activity, AgentRef, CheckoutDigest, CheckoutReport, Churn, Commit, Digest, Dirty, Head, Landed,
    Note, RepoDigest, RepoKey, Severity, Stamp, Tracking, Unpushed, Window, WindowSource,
    WorkspaceRef, SCHEMA_VERSION,
};
use standup::paths::Place;
use standup::render::render;
use standup::standup::{asks_session, build, candidates, collect_workspaces, Build, Need};

fn stamp(local: &str) -> Stamp {
    Stamp {
        epoch: 7,
        local: local.to_string(),
        zone: "UTC +0000".to_string(),
        offset_seconds: Some(0),
    }
}

fn commit(oid: &str) -> Commit {
    Commit {
        oid: oid.to_string(),
        author: "Ada".to_string(),
        committed: stamp("2026-08-15 09:00"),
        subject: "Work".to_string(),
        is_merge: false,
        insertions: 1,
        deletions: 0,
        files: vec!["a.rs".to_string()],
    }
}

fn agent(pane: &str, name: &str, cwd: &str) -> AgentRef {
    AgentRef {
        name: Some(name.to_string()),
        program: None,
        session_id: None,
        pane_id: pane.to_string(),
        status: None,
        cwd: Some(cwd.to_string()),
    }
}

fn workspace(id: &str, label: &str, paths: &[&str], agents: Vec<AgentRef>) -> WorkspaceRef {
    WorkspaceRef {
        workspace_id: id.to_string(),
        label: label.to_string(),
        number: None,
        paths: paths.iter().map(|path| path.to_string()).collect(),
        agents,
        agent_status: None,
    }
}

fn id(path: &str, repo: &str) -> CheckoutId {
    CheckoutId {
        path: path.to_string(),
        repo_key: RepoKey(format!("{repo}/.git")),
        repo_root: repo.to_string(),
        is_linked_worktree: path != repo,
    }
}

fn report(id: &CheckoutId, oids: &[&str]) -> CheckoutReport {
    CheckoutReport {
        path: id.path.clone(),
        repo_key: RepoKey(id.repo_key.as_str().to_string()),
        repo_root: id.repo_root.clone(),
        is_linked_worktree: id.is_linked_worktree,
        head: Head::Branch {
            name: "feat".to_string(),
            oid: "aaaa".to_string(),
        },
        commits: oids.iter().map(|oid| commit(oid)).collect(),
        churn: Churn::default(),
        dirty: Dirty::default(),
        tracking: Tracking::NoUpstream,
        landed: Landed::NotMerged {
            into: "main".to_string(),
        },
        unpushed: Unpushed::Commits { count: 0 },
        problems: Vec::new(),
    }
}

#[test]
fn an_offline_run_needs_a_path() {
    let mut config = Config {
        offline: true,
        ..Config::default()
    };
    assert_eq!(
        asks_session(&config),
        Err("--offline needs at least one --path to report on".to_string())
    );
    config.extra_paths = vec!["/a".to_string()];
    assert_eq!(asks_session(&config), Ok(false));
    config.offline = false;
    assert_eq!(asks_session(&config), Ok(true));
}

#[test]
fn an_unreachable_session_degrades_to_the_named_paths() {
    let mut config = Config::default();
    assert_eq!(
        collect_workspaces(&config, Err("no socket".to_string())),
        Err("no socket".to_string())
    );
    config.extra_paths = vec!["/a".to_string()];
    let (workspaces, notes) = collect_workspaces(&config, Err("no socket".to_string())).unwrap();
    assert!(workspaces.is_empty());
    assert_eq!(
        notes,
        [Note::warning(
            "herdr is not reachable (no socket); reporting only the paths given with --path"
                .to_string()
        )]
    );
    let (workspaces, notes) =
        collect_workspaces(&config, Ok(vec![workspace("w1", "atlas", &["/a"], Vec::new())]))
            .unwrap();
    assert_eq!(workspaces.len(), 1);
    assert!(notes.is_empty());
}

#[test]
fn each_candidate_is_asked_about_once() {
    let config = Config {
        extra_paths: vec!["/b".to_string(), "/c".to_string()],
        ..Config::default()
    };
    let workspaces = vec![
        workspace("w1", "one", &["/a", "/b"], Vec::new()),
        workspace("w2", "two", &["/a/."], Vec::new()),
    ];
    let mut found = candidates(&config, &workspaces);
    found.sort();
    assert_eq!(found, ["/a", "/b", "/c"]);
}

fn workspaces() -> Vec<WorkspaceRef> {
    vec![
        workspace(
            "w1",
            "atlas",
            &["/code/atlas/src"],
            vec![agent("w1:p1", "kestrel", "/code/atlas/src")],
        ),
        workspace("w2", "notes", &["/home/notes"], Vec::new()),
        workspace("w3", "broken", &["/broken"], Vec::new()),
    ]
}

fn window() -> Window {
    Window {
        since: stamp("2026-08-15 00:00"),
        until: None,
        source: WindowSource::Default,
    }
}

/// Answers what a build needs until it needs nothing more.
fn run(mut build: Build) -> Digest {
    for _ in 0..50 {
        match build.need() {
            Need::Identify(Place::Raw(bytes)) => {
                assert_eq!(bytes, b"/code/atlas-\xff");
                let path = "/code/atlas-\u{fffd}";
                build.hear_identity(Identity::Checkout(id(path, "/code/atlas")));
            }
            Need::Identify(Place::Named(path)) => {
                let identity = match path.as_str() {
                    "/code/atlas/src" => Identity::Checkout(id("/code/atlas", "/code/atlas")),
                    "/code/atlas-wt" => Identity::Checkout(id("/code/atlas-wt", "/code/atlas")),
                    "/broken" => Identity::Failed("git is gone".to_string()),
                    _ => Identity::Nothing,
                };
                build.hear_identity(identity);
            }
            Need::Worktrees(id) => {
                assert_eq!(id.path, "/code/atlas");
                build.hear_worktrees(Worktrees {
                    found: Ok(vec![
                        Place::Named("/code/atlas".to_string()),
                        Place::Raw(b"/code/atlas-\xff".to_vec()),
                        Place::Named("/code/atlas-wt".to_string()),
                    ]),
                });
            }
            Need::Window(anchors) => {
                assert_eq!(anchors[0], "/code/atlas");
                build.hear_window(window(), vec![Note::info("from the window".to_string())]);
            }
            Need::Report(id) => {
                assert!(build.window().is_some());
                let oids: &[&str] = if id.is_linked_worktree { &[] } else { &["x"] };
                let report = report(&id, oids);
                build.hear_report(report);
            }
            Need::Nothing => return build.finish(stamp("2026-08-15 23:15")),
        }
    }
    panic!("a build without an end");
}

#[test]
fn a_build_finds_every_checkout_and_says_what_it_skipped() {
    let start = vec![Note::warning("from before".to_string())];
    let digest = run(build(&Config::default(), workspaces(), start));
    assert_eq!(digest.schema, SCHEMA_VERSION);
    assert_eq!(digest.generated_at.local, "2026-08-15 23:15");
    assert_eq!(digest.repos.len(), 1);
    let repo = &digest.repos[0];
    assert_eq!(repo.name, "atlas");
    assert_eq!(repo.commits, 1);
    let paths: Vec<&str> = repo
        .checkouts
        .iter()
        .map(|checkout| checkout.report.path.as_str())
        .collect();
    // The sibling that no workspace sits in is there, after the busier one.
    assert_eq!(
        paths,
        ["/code/atlas", "/code/atlas-wt", "/code/atlas-\u{fffd}"]
    );
    assert_eq!(repo.checkouts[0].workspaces[0].workspace_id, "w1");
    assert_eq!(repo.checkouts[0].agents[0].pane_id, "w1:p1");
    assert!(repo.checkouts[1].agents.is_empty());

    let told: Vec<&str> = digest
        .notes
        .iter()
        .map(|note| note.message.as_str())
        .collect();
    assert_eq!(told[0], "from before");
    assert!(told.contains(
        &"workspace \"notes\": /home/notes is not a git checkout — skipped"
    ));
    assert!(told.contains(&"could not inspect /broken: git is gone"));
    assert!(told.contains(&"from the window"));
    assert_eq!(
        digest
            .notes
            .iter()
            .filter(|note| note.severity == Severity::Warning)
            .count(),
        2
    );
}

#[test]
fn siblings_are_left_out_where_asked() {
    let config = Config {
        include_siblings: false,
        ..Config::default()
    };
    let digest = run(build(&config, workspaces(), Vec::new()));
    assert_eq!(digest.repos[0].checkouts.len(), 1);
}

fn shared_digest() -> Digest {
    let site = id("/code/atlas", "/code/atlas");
    let lone = id("/code/birch", "/code/birch");
    let of = |id: &CheckoutId, oids: &[&str], agents: Vec<AgentRef>| RepoDigest {
        repo_key: RepoKey(id.repo_key.as_str().to_string()),
        name: id.path.trim_start_matches("/code/").to_string(),
        repo_root: id.repo_root.clone(),
        checkouts: vec![CheckoutDigest {
            report: report(id, oids),
            workspaces: Vec::new(),
            agents,
        }],
        commits: oids.len(),
        churn: Churn::default(),
        active_days: 1,
    };
    Digest {
        schema: SCHEMA_VERSION,
        generated_at: stamp("2026-08-15 23:15"),
        window: window(),
        repos: vec![
            of(
                &site,
                &["x", "y"],
                vec![
                    agent("w1:p1", "kestrel", "/code/atlas"),
                    agent("w1:p2", "wren", "/code/atlas"),
                ],
            ),
            of(&lone, &["z"], Vec::new()),
        ],
        notes: Vec::new(),
    }
}

#[test]
fn grouping_by_agent_leaves_no_checkout_out() {
    let digest = shared_digest();
    let grouping = group(&digest, &Ignored::default());
    let labels: Vec<&str> = grouping
        .groups
        .iter()
        .map(|group| group.label.as_str())
        .collect();
    assert_eq!(labels.len(), 3);
    for label in ["kestrel", "wren", UNATTRIBUTED] {
        assert!(labels.contains(&label), "{labels:?}");
    }
    assert_eq!(grouping.shared, 1);
    assert_eq!(grouping.double_counted, 2);
    assert!(grouping
        .caveat()
        .contains("These totals add up to 2 commits more than the digest's"));
    let config = Config {
        by_agent: true,
        format: Format::Markdown,
        ..Config::default()
    };
    let found = render(&digest, &config).unwrap();
    assert!(found.contains("grouped by agent"), "{found}");
    assert!(found.contains("no agent reported"), "{found}");
}

#[test]
fn a_checkout_is_as_loud_as_its_worst() {
    let site = id("/code/atlas", "/code/atlas");
    let mut quiet = report(&site, &[]);
    assert_eq!(quiet.activity(), Activity::Quiet);
    quiet.unpushed = Unpushed::Commits { count: 1 };
    assert_eq!(quiet.activity(), Activity::Unpushed);
    quiet.dirty.untracked = 1;
    assert_eq!(quiet.activity(), Activity::Uncommitted);
    quiet.commits = vec![commit("x"), commit("y")];
    assert_eq!(quiet.activity(), Activity::Active);
    assert_eq!(quiet.authors(), ["Ada"]);
    quiet.problems = vec!["git hung".to_string()];
    assert_eq!(quiet.activity(), Activity::Broken);
    assert!(Activity::Broken > Activity::Active);
    assert_eq!(Activity::Broken.level(), 4);
}

#[test]
fn totals_are_those_of_the_repositories() {
    let digest = shared_digest();
    assert_eq!(digest.total_commits(), 3);
    assert!(digest.total_churn().is_zero());
    assert_eq!(digest.busy_repos().len(), 2);
    assert!(digest.quiet_repos().is_empty());
    assert!(!digest.is_quiet());
}
