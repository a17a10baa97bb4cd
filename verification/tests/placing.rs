use standup::config::Ignored;
use standup::model::{
    AgentRef, CheckoutDigest, CheckoutReport, Churn, Commit, Dirty, Head, Landed, RepoDigest,
    RepoKey, Severity, Stamp, Tracking, Unpushed, WorkspaceRef,
};
use standup::placing::{place_agents, Placement};
use standup::rollup::rollup;

fn agent(pane: &str, name: Option<&str>, program: &str, cwd: Option<&str>) -> AgentRef {
    AgentRef {
        name: name.map(str::to_string),
        program: Some(program.to_string()),
        session_id: None,
        pane_id: pane.to_string(),
        status: None,
        cwd: cwd.map(str::to_string),
    }
}

fn workspace(label: &str, paths: &[&str], agents: Vec<AgentRef>) -> WorkspaceRef {
    WorkspaceRef {
        workspace_id: format!("ws-{label}"),
        label: label.to_string(),
        number: None,
        paths: paths.iter().map(|path| path.to_string()).collect(),
        agents,
        agent_status: None,
    }
}

fn resolved(pairs: &[(&str, &str)]) -> Vec<(String, String)> {
    pairs
        .iter()
        .map(|(dir, root)| (dir.to_string(), root.to_string()))
        .collect()
}

fn credited<'a>(placed: &'a [Placement], root: &str) -> Vec<&'a str> {
    placed
        .iter()
        .find(|placement| placement.root == root)
        .map(|placement| placement.agents.iter().map(|a| a.pane_id.as_str()).collect())
        .unwrap_or_default()
}

fn rollup_checkout(path: &str, is_linked_worktree: bool, commits: Vec<Commit>) -> CheckoutDigest {
    CheckoutDigest {
        report: CheckoutReport {
            path: path.to_string(),
            repo_key: RepoKey("/repo/.git".to_string()),
            repo_root: "/repo".to_string(),
            is_linked_worktree,
            head: Head::Branch {
                name: "main".to_string(),
                oid: "0000000000000000000000000000000000000000".to_string(),
            },
            commits,
            churn: Churn::default(),
            dirty: Dirty::default(),
            tracking: Tracking::NoUpstream,
            landed: Landed::IsDefault {
                name: "main".to_string(),
            },
            unpushed: Unpushed::Commits { count: 0 },
            problems: Vec::new(),
        },
        workspaces: Vec::new(),
        agents: Vec::new(),
    }
}

fn generated(distinct: usize) -> Vec<Commit> {
    let mut commits = Vec::with_capacity(distinct);
    for index in 0..distinct {
        // Every generated date is calendar-valid and unique: limiting each
        // month to 28 days avoids a date dependency in this deterministic
        // fixture while still exercising thousands of day memberships.
        let year = 2000 + index / (12 * 28);
        let month = index / 28 % 12 + 1;
        let day = index % 28 + 1;
        let file = if index % 8 == 0 {
            format!("generated/{index}/Cargo.lock")
        } else {
            format!("src/file-{index:04}.rs")
        };
        commits.push(Commit {
            oid: format!("{index:040x}"),
            author: "Fixture".to_string(),
            committed: Stamp {
                epoch: index as i64,
                local: format!("{year:04}-{month:02}-{day:02} 12:00"),
                zone: "UTC +0000".to_string(),
                offset_seconds: Some(0),
            },
            subject: format!("Generated commit {index}"),
            is_merge: false,
            insertions: 2,
            deletions: 1,
            files: vec![file],
        });
    }
    commits
}

#[test]
fn large_overlapping_worktrees_roll_up_distinct_commits_files_and_days() {
    const DISTINCT: usize = 4_096;

    let mut repo = RepoDigest {
        repo_key: RepoKey("/repo/.git".to_string()),
        name: "repo".to_string(),
        repo_root: "/repo".to_string(),
        checkouts: vec![
            rollup_checkout("/repo", false, generated(DISTINCT)),
            rollup_checkout("/repo-worktree", true, generated(DISTINCT)),
        ],
        commits: 0,
        churn: Churn::default(),
        active_days: 0,
    };

    rollup(&mut repo, &Ignored::default());

    assert_eq!(repo.commits, DISTINCT);
    assert_eq!(repo.active_days, DISTINCT);
    assert_eq!(
        repo.churn,
        Churn {
            files: DISTINCT,
            excluded: DISTINCT / 8,
            insertions: (DISTINCT * 2) as u64,
            deletions: DISTINCT as u64,
        }
    );
}

/// Two agents in one window, in one checkout, are two agents, also where they
/// share a program and neither is named.
#[test]
fn two_unnamed_agents_sharing_a_checkout_stay_two_agents() {
    let workspaces = vec![workspace(
        "atlas",
        &["/code/atlas"],
        vec![
            agent("w1:p1", None, "opencode", Some("/code/atlas")),
            agent("w1:p2", None, "opencode", Some("/code/atlas")),
        ],
    )];
    let (placed, notes) = place_agents(&workspaces, &resolved(&[("/code/atlas", "/code/atlas")]));

    assert_eq!(credited(&placed, "/code/atlas"), ["w1:p1", "w1:p2"]);
    assert!(notes.is_empty(), "{notes:?}");
}

/// A workspace is not a place. Its panes can sit in different checkouts, and
/// crediting every agent to every one of them is a guess presented as a fact.
#[test]
fn a_workspace_spanning_two_checkouts_credits_each_agent_where_it_worked() {
    let workspaces = vec![workspace(
        "atlas",
        &["/code/atlas", "/code/atlas-wt"],
        vec![
            agent("w1:p1", Some("kestrel"), "opencode", Some("/code/atlas")),
            agent("w1:p2", Some("wren"), "opencode", Some("/code/atlas-wt")),
        ],
    )];
    let (placed, notes) = place_agents(
        &workspaces,
        &resolved(&[
            ("/code/atlas", "/code/atlas"),
            ("/code/atlas-wt", "/code/atlas-wt"),
        ]),
    );

    assert_eq!(credited(&placed, "/code/atlas"), ["w1:p1"]);
    assert_eq!(credited(&placed, "/code/atlas-wt"), ["w1:p2"]);
    assert!(notes.is_empty(), "{notes:?}");
}

/// An agent's directory need not be the checkout root, so the answer comes
/// from git's own resolution of the candidate rather than a path comparison.
#[test]
fn an_agent_in_a_subdirectory_is_credited_to_the_checkout() {
    let workspaces = vec![workspace(
        "atlas",
        &["/code/atlas/crates/core"],
        vec![agent(
            "w1:p1",
            Some("kestrel"),
            "opencode",
            Some("/code/atlas/crates/core"),
        )],
    )];
    let (placed, notes) = place_agents(
        &workspaces,
        &resolved(&[("/code/atlas/crates/core", "/code/atlas")]),
    );

    assert_eq!(credited(&placed, "/code/atlas"), ["w1:p1"]);
    assert!(notes.is_empty(), "{notes:?}");
}

/// `cwd` is optional. With one checkout in the workspace there is nowhere else
/// the agent could have been, so this is still a fact rather than a guess and
/// gets no note.
#[test]
fn an_agent_with_no_directory_is_placed_when_there_is_only_one_candidate() {
    let workspaces = vec![workspace(
        "atlas",
        &["/code/atlas"],
        vec![agent("w1:p1", Some("kestrel"), "opencode", None)],
    )];
    let (placed, notes) = place_agents(&workspaces, &resolved(&[("/code/atlas", "/code/atlas")]));

    assert_eq!(credited(&placed, "/code/atlas"), ["w1:p1"]);
    assert!(notes.is_empty(), "{notes:?}");
}

/// Unknowable, so it reads as unknown. The agent is credited to neither checkout
/// and the digest says why, rather than being spread across both or silently
/// attached to the last one seen.
#[test]
fn an_unplaceable_agent_is_credited_to_nobody_and_said_out_loud() {
    let workspaces = vec![workspace(
        "atlas",
        &["/code/atlas", "/code/atlas-wt"],
        vec![
            agent("w1:p1", Some("kestrel"), "opencode", Some("/code/atlas")),
            agent("w1:p2", Some("wren"), "opencode", None),
        ],
    )];
    let (placed, notes) = place_agents(
        &workspaces,
        &resolved(&[
            ("/code/atlas", "/code/atlas"),
            ("/code/atlas-wt", "/code/atlas-wt"),
        ]),
    );

    assert_eq!(credited(&placed, "/code/atlas"), ["w1:p1"]);
    assert!(
        credited(&placed, "/code/atlas-wt").is_empty(),
        "an unknown directory must not become a credit"
    );
    assert_eq!(notes.len(), 1, "{notes:?}");
    assert_eq!(notes[0].severity, Severity::Warning);
    assert!(notes[0].message.contains("atlas"), "{:?}", notes[0].message);
    assert!(notes[0].message.contains('2'), "{:?}", notes[0].message);
    assert!(
        notes[0].message.contains("1 agent"),
        "the count must be exact: {:?}",
        notes[0].message
    );
}

/// A directory that is not a checkout resolves to nothing, and an agent
/// sitting in one is not evidence about any repository.
#[test]
fn an_agent_outside_every_checkout_is_credited_nowhere() {
    let workspaces = vec![workspace(
        "notes",
        &["/home/dev/notes"],
        vec![agent(
            "w1:p1",
            Some("kestrel"),
            "opencode",
            Some("/home/dev/notes"),
        )],
    )];
    let (placed, notes) = place_agents(&workspaces, &resolved(&[]));

    assert!(placed.is_empty(), "{placed:?}");
    assert!(notes.is_empty(), "{notes:?}");

    // Nor is it evidence about the checkouts its workspace does touch, be they
    // one or several.
    let workspaces = vec![workspace(
        "atlas",
        &["/code/atlas", "/code/atlas-wt", "/home/dev/notes"],
        vec![agent(
            "w1:p1",
            Some("kestrel"),
            "opencode",
            Some("/home/dev/notes"),
        )],
    )];
    let one = ("/code/atlas", "/code/atlas");
    let other = ("/code/atlas-wt", "/code/atlas-wt");
    for known in [vec![one], vec![one, other]] {
        let (placed, notes) = place_agents(&workspaces, &resolved(&known));
        assert!(placed.is_empty(), "{placed:?}");
        assert!(notes.is_empty(), "{notes:?}");
    }
}

#[test]
fn the_note_on_unplaceable_agents_quotes_the_workspace() {
    let workspaces = vec![workspace(
        "at\"las\n",
        &["/a", "/b"],
        vec![
            agent("w1:p1", None, "opencode", None),
            agent("w1:p2", None, "opencode", None),
        ],
    )];
    let (placed, notes) = place_agents(&workspaces, &resolved(&[("/a", "/a"), ("/b", "/b")]));
    assert!(placed.is_empty(), "{placed:?}");
    assert_eq!(notes.len(), 1);
    assert_eq!(
        notes[0].message,
        "workspace \"at\\\"las\\n\" spans 2 checkouts and herdr did not say which of them 2 \
         agents worked in, so that work is credited to none of them"
    );
}
