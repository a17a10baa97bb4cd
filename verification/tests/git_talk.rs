use standup::clock::{Civil, Moment};
use standup::config::Ignored;
use standup::git::ask::{Ask, Output, Reply, Step};
use standup::git::dates::{read_date, resolve_date_at, Instant};
use standup::git::identify::{parse_worktrees, CheckoutId, Identity};
use standup::git::landing::{default_branch, diff_args, landed, Landing, Trunk};
use standup::git::report::Progress;
use standup::git::stages::{commits, dirty, git_dir, head, tracking, unpushed};
use standup::git::Git;
use standup::model::{
    Dirty, Equivalence, Head, Landed, RepoKey, Stamp, Tracking, Unpushed, Window, WindowSource,
};
use standup::paths::Place;

fn git() -> Git {
    Git::new("git".to_string(), 20)
}

fn ran(stdout: &str) -> Reply {
    Reply::Ran(Output {
        code: Some(0),
        stdout: stdout.as_bytes().to_vec(),
        stderr: Vec::new(),
    })
}

fn failed(code: i32, stderr: &str) -> Reply {
    Reply::Ran(Output {
        code: Some(code),
        stdout: Vec::new(),
        stderr: stderr.as_bytes().to_vec(),
    })
}

fn piped(stdout: &str) -> Reply {
    Reply::Piped {
        source: Output {
            code: Some(0),
            stdout: Vec::new(),
            stderr: Vec::new(),
        },
        sink: Output {
            code: Some(0),
            stdout: stdout.as_bytes().to_vec(),
            stderr: Vec::new(),
        },
    }
}

/// Holds a conversation: answers each question until there is a result.
fn talk<V>(
    step: impl Fn(&Vec<Reply>) -> Step<V>,
    mut answer: impl FnMut(&Ask) -> Reply,
) -> (V, Vec<String>) {
    let mut heard = Vec::new();
    loop {
        match step(&heard) {
            Step::Ask(ask) => heard.push(answer(&ask)),
            Step::Done { value, problems } => return (value, problems),
        }
        assert!(heard.len() < 50, "a conversation without an end");
    }
}

/// The command line of a question that runs git.
fn asked(ask: &Ask) -> String {
    match ask {
        Ask::Run { args, .. } | Ask::RunOnCopy { args, .. } | Ask::PatchIds { args, .. } => {
            args.join(" ")
        }
        other => format!("{other:?}"),
    }
}

fn branch(name: &str) -> Head {
    Head::Branch {
        name: name.to_string(),
        oid: "aaaa".to_string(),
    }
}

#[test]
fn the_git_directory_is_the_worktrees_own() {
    let (found, problems) = talk(
        |heard| git_dir(&git(), "/repo", heard),
        |ask| {
            assert_eq!(asked(ask), "rev-parse --path-format=absolute --git-dir");
            ran("/repo/.git\n")
        },
    );
    assert_eq!(found.value, Some("/repo/.git".to_string()));
    assert!(problems.is_empty());

    let (found, problems) = talk(
        |heard| git_dir(&git(), "/repo", heard),
        |_| Reply::TimedOut,
    );
    assert_eq!(found.value, None);
    assert_eq!(problems, ["git rev-parse timed out after 20s in /repo"]);
}

/// What HEAD comes to, given what `symbolic-ref` says, what the reference
/// resolves to and whether there is a reflog.
fn head_of(symbolic: Reply, oid: &str, reflog: bool) -> (Head, Vec<String>) {
    let mut symbolic = Some(symbolic);
    talk(
        |heard| head(&git(), "/repo", &Some("/repo/.git".to_string()), heard),
        |ask| match ask {
            Ask::Run { args, .. } if args[0] == "symbolic-ref" => symbolic.take().unwrap(),
            Ask::Run { .. } if oid.is_empty() => failed(1, ""),
            Ask::Run { .. } => ran(oid),
            Ask::Exists { path } => {
                assert_eq!(path, "/repo/.git/logs/HEAD");
                if reflog {
                    Reply::Yes
                } else {
                    Reply::No
                }
            }
            other => panic!("unexpected {other:?}"),
        },
    )
}

#[test]
fn head_has_four_states() {
    let (found, problems) = head_of(ran("refs/heads/feat/x\n"), "aaaa", false);
    assert_eq!(
        found,
        Head::Branch {
            name: "feat/x".to_string(),
            oid: "aaaa".to_string()
        }
    );
    assert!(problems.is_empty());
    let (found, _) = head_of(failed(1, ""), "bbbb", false);
    assert_eq!(
        found,
        Head::Detached {
            oid: "bbbb".to_string()
        }
    );
    let (found, _) = head_of(ran("refs/heads/new"), "", false);
    assert_eq!(
        found,
        Head::Unborn {
            name: "new".to_string()
        }
    );
    let (found, _) = head_of(ran("refs/heads/gone"), "", true);
    assert_eq!(
        found,
        Head::BranchDeleted {
            name: "gone".to_string()
        }
    );
}

#[test]
fn a_head_that_cannot_be_read_is_a_problem() {
    let (found, problems) = head_of(failed(1, ""), "", false);
    assert_eq!(
        found,
        Head::Detached {
            oid: String::new()
        }
    );
    assert_eq!(
        problems,
        ["HEAD in /repo is neither a branch nor a commit"]
    );
    let (_, problems) = head_of(Reply::NotStarted("no such file".to_string()), "", false);
    assert_eq!(problems, ["could not run git in /repo: no such file"]);
    let (found, problems) = talk(
        |heard| head(&git(), "/repo", &None, heard),
        |ask| {
            if asked(ask).starts_with("symbolic-ref") {
                ran("refs/heads/x")
            } else {
                failed(1, "")
            }
        },
    );
    assert_eq!(
        found,
        Head::Unborn {
            name: "x".to_string()
        }
    );
    assert_eq!(
        problems,
        ["cannot tell whether x is unborn or was deleted: the per-worktree git directory of /repo \
          could not be read"]
    );
}

fn instant(epoch: i64) -> Stamp {
    Stamp {
        epoch,
        local: "2026-08-15 00:00".to_string(),
        zone: "UTC +0000".to_string(),
        offset_seconds: Some(0),
    }
}

fn window(until: Option<i64>) -> Window {
    Window {
        since: instant(1_786_752_000),
        until: until.map(instant),
        source: WindowSource::Default,
    }
}

fn shown(epoch: i64) -> Moment {
    Moment {
        epoch,
        civil: Some(Civil {
            years_since_1900: 126,
            month: 7,
            day: 15,
            hour: 9,
            minute: 4,
            second: 0,
            weekday: 6,
            offset_seconds: 0,
            zone: Some("UTC".to_string()),
        }),
    }
}

const LOG: &str = "\u{1e}aaaa\u{1f}pppp\u{1f}Ada\u{1f}1786784640\u{1f}Batch\0\n3\t1\ta.rs\0\u{1e}bbbb\u{1f}pppp qqqq\u{1f}Ada\u{1f}1786784600\u{1f}Merge\0";

#[test]
fn the_log_is_read_and_dated() {
    let mut questions = Vec::new();
    let (found, problems) = talk(
        |heard| commits(&git(), "/repo", &window(Some(1_786_800_000)), heard),
        |ask| {
            questions.push(asked(ask));
            match ask {
                Ask::LocalTimes { instants } => {
                    Reply::Times(instants.iter().map(|epoch| shown(*epoch)).collect())
                }
                _ => ran(LOG),
            }
        },
    );
    assert_eq!(
        questions[0],
        "log --since-as-filter=@1786752000 --min-age=1786800000 --numstat -z --no-renames \
         --format=%x1e%H%x1f%P%x1f%an%x1f%ct%x1f%s"
    );
    assert_eq!(questions.len(), 2);
    assert!(problems.is_empty());
    assert_eq!(found.commits.len(), 2);
    assert_eq!(found.commits[0].committed.local, "2026-08-15 09:04");
    assert!(found.commits[1].is_merge);
    assert_eq!((found.churn.files, found.churn.insertions), (1, 3));
}

/// A git that does not know the filter is asked again, and the report says so.
#[test]
fn an_old_git_falls_back_to_pruning() {
    let mut questions = Vec::new();
    let (found, problems) = talk(
        |heard| commits(&git(), "/repo", &window(None), heard),
        |ask| {
            questions.push(asked(ask));
            if questions.len() == 1 {
                failed(128, "fatal: unrecognized argument: --since-as-filter=@1")
            } else {
                ran("")
            }
        },
    );
    assert!(questions[1].starts_with("log --max-age=1786752000 --numstat"));
    assert!(found.commits.is_empty());
    assert_eq!(problems.len(), 1);
    assert!(problems[0].starts_with("git does not support --since-as-filter"));
}

#[test]
fn a_failed_log_is_a_problem_and_an_empty_one_is_not() {
    let (_, problems) = talk(
        |heard| commits(&git(), "/repo", &window(None), heard),
        |_| failed(128, "fatal: bad\n  object"),
    );
    assert_eq!(
        problems,
        ["could not read the log of /repo: fatal: bad object"]
    );
    let (_, problems) = talk(
        |heard| commits(&git(), "/repo", &window(None), heard),
        |_| failed(128, "your current branch 'x' does not have any commits yet"),
    );
    assert!(problems.is_empty());
}

fn dirty_of(copy: Reply) -> (Dirty, Vec<String>) {
    let mut copy = Some(copy);
    talk(
        |heard| dirty(&git(), "/repo", &Some("/repo/.git".to_string()), heard),
        |ask| match ask {
            Ask::Run { .. } => ran("1 .M N... a.rs\0? b.rs\0"),
            Ask::CopyIndex { index } => {
                assert_eq!(index, "/repo/.git/index");
                copy.take().unwrap()
            }
            Ask::RunOnCopy { args, .. } if args.len() == 2 => {
                ran(" 1 file changed, 5 insertions(+)")
            }
            Ask::RunOnCopy { .. } => ran(" 1 file changed, 1 insertion(+), 2 deletions(-)"),
            other => panic!("unexpected {other:?}"),
        },
    )
}

#[test]
fn uncommitted_work_is_counted_and_measured() {
    let (found, problems) = dirty_of(Reply::Ready);
    assert_eq!(
        found,
        Dirty {
            tracked_changed: 1,
            untracked: 1,
            conflicted: 0,
            insertions: 6,
            deletions: 2,
        }
    );
    assert!(problems.is_empty());
}

/// A diff writes the index it reads, so without a copy there is no diff.
#[test]
fn lines_are_not_measured_without_a_copy() {
    let (found, problems) = dirty_of(Reply::NotMade("disk full".to_string()));
    assert_eq!((found.tracked_changed, found.untracked), (1, 1));
    assert_eq!((found.insertions, found.deletions), (0, 0));
    assert_eq!(problems.len(), 1);
    assert!(
        problems[0].starts_with("could not measure uncommitted line counts in /repo: disk full."),
        "{}",
        problems[0]
    );
    let (_, problems) = dirty_of(Reply::NoIndex);
    assert!(problems.is_empty());
    let (_, problems) = talk(
        |heard| dirty(&git(), "/repo", &None, heard),
        |_| failed(128, "fatal: no"),
    );
    assert_eq!(problems.len(), 2);
    assert_eq!(
        problems[0],
        "could not read the status of /repo: fatal: no"
    );
}

fn tracking_of(upstream: Reply, resolves: bool, counts: Reply) -> (Tracking, Vec<String>) {
    let mut upstream = Some(upstream);
    let mut counts = Some(counts);
    talk(
        |heard| tracking(&git(), "/repo", &branch("feat"), heard),
        |ask| {
            let line = asked(ask);
            if line == "for-each-ref --format=%(upstream:short) refs/heads/feat" {
                upstream.take().unwrap()
            } else if line == "rev-parse --verify -q origin/feat^{commit}" {
                if resolves {
                    ran("bbbb")
                } else {
                    failed(1, "")
                }
            } else {
                assert_eq!(line, "rev-list --left-right --count origin/feat...HEAD");
                counts.take().unwrap()
            }
        },
    )
}

#[test]
fn an_upstream_is_compared_with() {
    let (found, problems) = tracking_of(ran("origin/feat\n"), true, ran("3\t2\n"));
    assert_eq!(
        found,
        Tracking::Upstream {
            name: "origin/feat".to_string(),
            ahead: 2,
            behind: 3
        }
    );
    assert!(problems.is_empty());
    let (found, _) = tracking_of(ran("\n"), true, ran(""));
    assert_eq!(found, Tracking::NoUpstream);
    let missing = Tracking::UpstreamMissing {
        name: "origin/feat".to_string(),
    };
    let (found, problems) = tracking_of(ran("origin/feat"), false, ran(""));
    assert_eq!(found, missing);
    assert!(problems.is_empty());
    let (found, problems) = tracking_of(ran("origin/feat"), true, ran("3 \"x"));
    assert_eq!(found, missing);
    assert_eq!(
        problems,
        ["could not read the ahead/behind counts against origin/feat: \"3 \\\"x\""]
    );
    let (_, problems) = tracking_of(ran("origin/feat"), true, failed(128, "no"));
    assert_eq!(problems, ["could not compare feat with origin/feat: no"]);
    let detached = Head::Detached {
        oid: "aaaa".to_string(),
    };
    let (found, _) = talk(
        |heard| tracking(&git(), "/repo", &detached, heard),
        |_| panic!("a detached HEAD tracks nothing"),
    );
    assert_eq!(found, Tracking::NotApplicable);
}

#[test]
fn unpushed_commits_are_those_on_no_remote() {
    let ask_both = |remotes: &'static str, count: &'static str| {
        talk(
            |heard| unpushed(&git(), "/repo", &branch("feat"), heard),
            |ask| {
                if asked(ask) == "remote" {
                    ran(remotes)
                } else {
                    assert_eq!(asked(ask), "rev-list --count HEAD --not --remotes");
                    ran(count)
                }
            },
        )
    };
    let none = Vec::<String>::new();
    assert_eq!(
        ask_both("origin\n", "4\n"),
        (Unpushed::Commits { count: 4 }, none.clone())
    );
    assert_eq!(ask_both("", ""), (Unpushed::NoRemote, none));
    // What could not be found out is a problem, so it cannot pass for quiet.
    let unknown = |reason: &str| {
        let reason = reason.to_string();
        (Unpushed::Unknown { reason: reason.clone() }, vec![reason])
    };
    assert_eq!(
        ask_both("origin", "many"),
        unknown("could not read the count of unpushed commits of /repo: \"many\"")
    );
    let refused = talk(
        |heard| unpushed(&git(), "/repo", &branch("feat"), heard),
        |_| failed(128, "no remotes"),
    );
    assert_eq!(refused, unknown("could not list the remotes of /repo: no remotes"));
    let refused = talk(
        |heard| unpushed(&git(), "/repo", &branch("feat"), heard),
        |ask| match asked(ask).as_str() {
            "remote" => ran("origin"),
            _ => failed(128, "bad revision"),
        },
    );
    assert_eq!(
        refused,
        unknown("could not count the unpushed commits of /repo: bad revision")
    );
    let late = talk(
        |heard| unpushed(&git(), "/repo", &branch("feat"), heard),
        |_| Reply::TimedOut,
    );
    assert_eq!(late.1, ["git remote timed out after 20s in /repo"]);
    let unborn = Head::Unborn {
        name: "x".to_string(),
    };
    let (found, _) = talk(
        |heard| unpushed(&git(), "/repo", &unborn, heard),
        |_| panic!("nothing to count"),
    );
    assert_eq!(
        found,
        Unpushed::Unknown {
            reason: "HEAD has no commit".to_string()
        }
    );
}

fn trunk() -> Option<Trunk> {
    Some(Trunk {
        name: "origin/main".to_string(),
        oid: "tttt".to_string(),
    })
}

#[test]
fn the_default_branch_is_the_first_that_resolves() {
    let (found, _) = talk(
        |heard| default_branch(&git(), "/repo", heard),
        |ask| match asked(ask).as_str() {
            "symbolic-ref -q --short refs/remotes/origin/HEAD" => ran("origin/trunk\n"),
            "rev-parse --verify -q origin/trunk^{commit}" => ran("tttt"),
            other => panic!("unexpected {other}"),
        },
    );
    let found = found.value.expect("a trunk");
    assert_eq!((found.name.as_str(), found.oid.as_str()), ("origin/trunk", "tttt"));
    let (found, _) = talk(
        |heard| default_branch(&git(), "/repo", heard),
        |ask| {
            if asked(ask).contains(" main^{commit}") {
                ran("mmmm")
            } else {
                failed(1, "")
            }
        },
    );
    assert_eq!(found.value.expect("a trunk").name, "main");
    let (found, _) = talk(
        |heard| default_branch(&git(), "/repo", heard),
        |_| failed(1, ""),
    );
    assert_eq!(found.value, None);
}

#[test]
fn both_sides_of_a_patch_comparison_are_pinned() {
    assert_eq!(
        diff_args(&["diff-tree", "base", "tip"]),
        [
            "diff-tree",
            "-p",
            "-U3",
            "--src-prefix=a/",
            "--dst-prefix=b/",
            "--no-renames",
            "--no-textconv",
            "base",
            "tip"
        ]
    );
}

fn landing_of(mut answer: impl FnMut(&Ask) -> Reply) -> (Landing, Vec<String>) {
    talk(
        |heard| landed(&git(), "/repo", &branch("feat"), &trunk(), heard),
        |ask| {
            if asked(ask) == "merge-base --is-ancestor aaaa origin/main" {
                failed(1, "")
            } else {
                answer(ask)
            }
        },
    )
}

#[test]
fn contained_work_is_merged() {
    let (found, _) = talk(
        |heard| landed(&git(), "/repo", &branch("feat"), &trunk(), heard),
        |_| ran(""),
    );
    assert_eq!(
        found.landed,
        Landed::Merged {
            into: "origin/main".to_string()
        }
    );
    let (found, _) = talk(
        |heard| landed(&git(), "/repo", &branch("main"), &trunk(), heard),
        |_| panic!("the trunk is not asked about"),
    );
    assert_eq!(
        found.landed,
        Landed::IsDefault {
            name: "origin/main".to_string()
        }
    );
}

#[test]
fn rebased_work_is_equivalent_commit_by_commit() {
    let (found, problems) = landing_of(|ask| match ask {
        Ask::RecallAnswer { .. } => Reply::Answer(None),
        Ask::Run { args, .. } if args[0] == "merge-base" => ran("base\n"),
        Ask::Run { args, .. } if args[0] == "cherry" => ran("- 1111\n- 2222\n"),
        other => panic!("unexpected {other:?}"),
    });
    assert_eq!(
        found.landed,
        Landed::Equivalent {
            into: "origin/main".to_string(),
            how: Equivalence::EveryCommit { commits: 2 }
        }
    );
    assert!(found.key.is_some());
    assert!(problems.is_empty());
}

#[test]
fn squashed_work_is_found_by_its_whole_patch() {
    let search = |range: &'static str| {
        landing_of(move |ask| match ask {
            Ask::RecallAnswer { .. } => Reply::Answer(None),
            Ask::RecallRange { .. } => Reply::Range(None),
            Ask::Run { args, .. } if args[0] == "merge-base" => ran("base"),
            Ask::Run { args, .. } if args[0] == "cherry" => ran("+ 1111\n- 2222"),
            Ask::PatchIds { args, .. } if args[0] == "diff-tree" => piped("pid 0000\n"),
            Ask::PatchIds { args, .. } => {
                assert_eq!(args.last().unwrap(), "base..origin/main");
                piped(range)
            }
            other => panic!("unexpected {other:?}"),
        })
        .0
    };
    let found = search("other cccc\npid dddd\n");
    assert_eq!(
        found.landed,
        Landed::Equivalent {
            into: "origin/main".to_string(),
            how: Equivalence::Squashed {
                oid: "dddd".to_string()
            }
        }
    );
    let (_, ids) = found.range.expect("a range worth remembering");
    assert_eq!(ids.len(), 2);
    let found = search("other cccc\n");
    assert_eq!(
        found.landed,
        Landed::NotMerged {
            into: "origin/main".to_string()
        }
    );
    assert!(found.key.is_some());
}

/// What is remembered is not asked for again.
#[test]
fn a_remembered_verdict_is_the_verdict() {
    let (found, _) = landing_of(|ask| match ask {
        Ask::RecallAnswer { .. } => Reply::Answer(Some(Landed::NotMerged {
            into: "origin/main".to_string(),
        })),
        other => panic!("unexpected {other:?}"),
    });
    assert_eq!(
        found.landed,
        Landed::NotMerged {
            into: "origin/main".to_string()
        }
    );
    assert_eq!(found.key, None);
    let (found, _) = landing_of(|ask| match ask {
        Ask::RecallAnswer { .. } => Reply::Answer(None),
        Ask::RecallRange { .. } => {
            Reply::Range(Some(vec![("pid".to_string(), "eeee".to_string())]))
        }
        Ask::Run { args, .. } if args[0] == "merge-base" => ran("base"),
        Ask::Run { .. } => ran("+ 1111"),
        Ask::PatchIds { .. } => piped("pid 0000"),
        other => panic!("unexpected {other:?}"),
    });
    assert_eq!(
        found.landed,
        Landed::Equivalent {
            into: "origin/main".to_string(),
            how: Equivalence::Squashed {
                oid: "eeee".to_string()
            }
        }
    );
    assert_eq!(found.range, None);
}

/// "Could not be asked" and "did not land" are opposite messages.
#[test]
fn a_failed_probe_is_unknown_never_not_merged() {
    let reason = |found: &Landing| match &found.landed {
        Landed::Unknown { reason } => reason.clone(),
        other => panic!("expected no verdict, got {other:?}"),
    };
    let (found, _) = landing_of(|ask| match ask {
        Ask::RecallAnswer { .. } => Reply::Answer(None),
        _ => failed(128, "boom"),
    });
    assert_eq!(
        reason(&found),
        "HEAD is not on origin/main by sha, and git merge-base exited 128: boom, so a squash or \
         rebase merge cannot be ruled out"
    );
    assert_eq!(found.key, None);
    let (found, _) = landing_of(|ask| match ask {
        Ask::RecallAnswer { .. } => Reply::Answer(None),
        Ask::Run { args, .. } if args[0] == "merge-base" => ran("base"),
        Ask::Run { .. } => ran("+ 1111"),
        _ => Reply::TimedOut,
    });
    assert!(
        reason(&found).contains("git diff-tree | git patch-id timed out after 20s"),
        "{}",
        reason(&found)
    );
    let (found, _) = talk(
        |heard| landed(&git(), "/repo", &branch("feat"), &None, heard),
        |_| panic!("nothing to compare with"),
    );
    assert!(reason(&found).starts_with("no default branch found"));
    let (found, _) = talk(
        |heard| landed(&git(), "/repo", &branch("feat"), &trunk(), heard),
        |_| failed(128, "bad object"),
    );
    assert_eq!(
        reason(&found),
        "git merge-base --is-ancestor exited 128 against origin/main: bad object"
    );
    // No fork point: there is nothing the work could have landed into.
    let (found, _) = landing_of(|ask| match ask {
        Ask::RecallAnswer { .. } => Reply::Answer(None),
        _ => failed(1, ""),
    });
    assert_eq!(
        found.landed,
        Landed::NotMerged {
            into: "origin/main".to_string()
        }
    );
}

fn identity_of(path: &str, first: Reply) -> Identity {
    let place = Place::Named(path.to_string());
    let mut first = Some(first);
    talk(
        |heard| git().identify(&place, heard),
        |ask| match ask {
            Ask::Run { .. } => first.take().unwrap(),
            Ask::Canonicalize { path } => Reply::Canonical(path.replace("/link", "/real")),
            other => panic!("unexpected {other:?}"),
        },
    )
    .0
}

#[test]
fn a_directory_is_identified_by_its_repository() {
    assert_eq!(
        identity_of("/link/repo/src", ran("/link/repo\n/link/repo/.git\n")),
        Identity::Checkout(CheckoutId {
            path: "/real/repo".to_string(),
            repo_key: RepoKey("/real/repo/.git".to_string()),
            repo_root: "/real/repo".to_string(),
            is_linked_worktree: false,
        })
    );
    assert_eq!(
        identity_of("/wt", ran("/wt\n/repo/.git\n")),
        Identity::Checkout(CheckoutId {
            path: "/wt".to_string(),
            repo_key: RepoKey("/repo/.git".to_string()),
            repo_root: "/repo".to_string(),
            is_linked_worktree: true,
        })
    );
    assert_eq!(
        identity_of("/notes", failed(128, "not a repo")),
        Identity::Nothing
    );
    assert_eq!(
        identity_of("/repo", Reply::TimedOut),
        Identity::Failed("git rev-parse timed out after 20s in /repo".to_string())
    );
    assert_eq!(
        identity_of("/repo", Reply::NotStarted("gone".to_string())),
        Identity::Failed("could not run git in /repo: gone".to_string())
    );
}

#[test]
fn the_sibling_worktrees_are_listed() {
    let stream = b"worktree /repo\0HEAD aaaa\0branch refs/heads/main\0\0worktree /bare\0bare\0\0worktree /gone\0prunable x\0\0worktree /wt\0detached\0\0";
    assert_eq!(parse_worktrees(stream), [b"/repo".to_vec(), b"/wt".to_vec()]);
    let id = CheckoutId {
        path: "/repo".to_string(),
        repo_key: RepoKey("/repo/.git".to_string()),
        repo_root: "/repo".to_string(),
        is_linked_worktree: false,
    };
    let (found, _) = talk(
        |heard| git().worktrees(&id, heard),
        |ask| match ask {
            Ask::CanonicalizeAt { bytes } => {
                Reply::CanonicalAt([b"/real".as_slice(), bytes.as_slice()].concat())
            }
            _ => Reply::Ran(Output {
                code: Some(0),
                stdout: stream.to_vec(),
                stderr: Vec::new(),
            }),
        },
    );
    assert_eq!(
        found.found,
        Ok(vec![
            Place::Named("/real/repo".to_string()),
            Place::Named("/real/wt".to_string())
        ])
    );
    // The main checkout is no worktree of itself.
    let alone = |_: &Ask| ran("worktree /repo\0HEAD aaaa\0branch refs/heads/main\0\0");
    let (found, _) = talk(|heard| git().worktrees(&id, heard), alone);
    assert_eq!(found.found, Ok(Vec::new()));
    let (found, _) = talk(|heard| git().worktrees(&id, heard), |_| failed(128, "no"));
    assert_eq!(
        found.found,
        Err("git worktree list --porcelain -z failed in /repo: no".to_string())
    );
}

/// A worktree whose path is no text keeps its bytes: it is listed, asked about
/// and identified like any other.
#[test]
fn a_worktree_keeps_a_path_that_is_no_text() {
    let id = CheckoutId {
        path: "/repo".to_string(),
        repo_key: RepoKey("/repo/.git".to_string()),
        repo_root: "/repo".to_string(),
        is_linked_worktree: false,
    };
    let (found, _) = talk(
        |heard| git().worktrees(&id, heard),
        |ask| match ask {
            Ask::CanonicalizeAt { bytes } => Reply::CanonicalAt(bytes.clone()),
            _ => Reply::Ran(Output {
                code: Some(0),
                stdout: b"worktree /repo\0\0worktree /w\xff\0\0".to_vec(),
                stderr: Vec::new(),
            }),
        },
    );
    let raw = Place::Raw(b"/w\xff".to_vec());
    assert_eq!(raw.display(), "/w\u{fffd}");
    assert_eq!(
        found.found,
        Ok(vec![Place::Named("/repo".to_string()), raw.clone()])
    );
    let (identity, _) = talk(
        |heard| git().identify(&raw, heard),
        |ask| match ask {
            Ask::RunAt { bytes, args } => {
                assert_eq!(bytes, b"/w\xff");
                assert_eq!(args[0], "rev-parse");
                Reply::Ran(Output {
                    code: Some(0),
                    stdout: b"/w\xff\n/repo/.git\n".to_vec(),
                    stderr: Vec::new(),
                })
            }
            Ask::Canonicalize { path } => Reply::Canonical(path.clone()),
            other => panic!("unexpected {other:?}"),
        },
    );
    assert_eq!(
        identity,
        Identity::Checkout(CheckoutId {
            path: "/w\u{fffd}".to_string(),
            repo_key: RepoKey("/repo/.git".to_string()),
            repo_root: "/repo".to_string(),
            is_linked_worktree: true,
        })
    );
    let (identity, _) = talk(|heard| git().identify(&raw, heard), |_| Reply::TimedOut);
    assert_eq!(
        identity,
        Identity::Failed("git rev-parse timed out after 20s in /w\u{fffd}".to_string())
    );
}

/// git answers "now" for what it cannot parse, with a successful exit.
#[test]
fn a_date_that_reads_as_now_is_refused() {
    let now = 1_786_831_294;
    assert_eq!(
        read_date("yesterday", "--max-age=1786700000", now),
        Instant {
            found: Ok(1_786_700_000)
        }
    );
    let told = read_date("bogus\"garbage", "--max-age=1786831293", now)
        .found
        .expect_err("the current instant");
    assert!(
        told.starts_with("git could not parse the window \"bogus\\\"garbage\": it resolved to"),
        "{told}"
    );
    assert_eq!(
        read_date(" Today ", "--max-age=1786831294", now).found,
        Ok(now)
    );
    assert_eq!(
        read_date("x", "nope", now).found,
        Err("git rev-parse --since=x answered \"nope\", not --max-age".to_string())
    );
    assert_eq!(
        read_date("x", "--max-age=soon", now).found,
        Err(
            "git rev-parse --since=x answered \"--max-age=soon\": invalid digit found in string"
                .to_string()
        )
    );
    let (found, _) = talk(
        |heard| resolve_date_at(&git(), "/repo", "  ", now, heard),
        |_| panic!("nothing to parse"),
    );
    assert_eq!(
        found.found,
        Err("an empty window is not a date git can parse".to_string())
    );
    let (found, _) = talk(
        |heard| git().resolve_date("/repo", "2026-08-01", heard),
        |ask| {
            assert_eq!(asked(ask), "rev-parse --since=2026-08-01");
            ran("--max-age=1785542400\n")
        },
    );
    assert_eq!(found.found, Ok(1_785_542_400));
}

#[test]
fn a_place_to_parse_dates_in_is_made_once() {
    let mut questions = Vec::new();
    let (found, _) = talk(
        |heard| git().ensure_date_ref_repo("/state/dateref.git", heard),
        |ask| {
            questions.push(asked(ask));
            match ask {
                // An enclosing repository answers, and is not the one.
                Ask::Run { args, .. } if args[0] == "rev-parse" => ran("/home/you/.git"),
                Ask::Canonicalize { path } => Reply::Canonical(path.clone()),
                Ask::MakeDirectory { .. } => Reply::Made,
                _ => ran(""),
            }
        },
    );
    assert_eq!(found.result, Ok(()));
    assert_eq!(questions.last().unwrap(), "init --bare -q");
    let (found, _) = talk(
        |heard| git().ensure_date_ref_repo("/state/dateref.git", heard),
        |ask| match ask {
            Ask::Canonicalize { path } => Reply::Canonical(path.clone()),
            Ask::Run { args, .. } if args[0] == "rev-parse" => ran("/state/dateref.git"),
            other => panic!("unexpected {other:?}"),
        },
    );
    assert_eq!(found.result, Ok(()));
    let (found, _) = talk(
        |heard| git().ensure_date_ref_repo("/state/dateref.git", heard),
        |ask| match ask {
            Ask::MakeDirectory { .. } => Reply::NotMade("read-only".to_string()),
            _ => failed(128, ""),
        },
    );
    assert_eq!(
        found.result,
        Err("could not create /state/dateref.git: read-only".to_string())
    );
}

/// A whole report, and every problem met on the way is in it.
#[test]
fn a_report_puts_the_parts_together() {
    let git = git().ignoring(Ignored::default());
    let id = CheckoutId {
        path: "/repo".to_string(),
        repo_key: RepoKey("/repo/.git".to_string()),
        repo_root: "/repo".to_string(),
        is_linked_worktree: false,
    };
    let mut progress = Progress::new();
    let window = window(None);
    while let Some(ask) = git.report(&id, &window, &mut progress) {
        assert!(!progress.is_complete());
        let line = asked(&ask);
        if let Ask::Run { args, .. } | Ask::RunOnCopy { args, .. } | Ask::PatchIds { args, .. } =
            &ask
        {
            assert!(!["add", "commit", "checkout", "update-ref", "init"].contains(&args[0].as_str()));
        }
        let reply = match &ask {
            Ask::LocalTimes { instants } => {
                Reply::Times(instants.iter().map(|epoch| shown(*epoch)).collect())
            }
            Ask::CopyIndex { .. } => Reply::NoIndex,
            _ if line.contains("--git-dir") => ran("/repo/.git"),
            _ if line == "symbolic-ref -q HEAD" => ran("refs/heads/feat"),
            _ if line.ends_with("refs/heads/feat^{commit}") => ran("aaaa"),
            _ if line.starts_with("log") => ran(LOG),
            _ if line.starts_with("status") => failed(128, "no status"),
            _ if line.starts_with("for-each-ref") => Reply::TimedOut,
            _ if line.starts_with("symbolic-ref") => ran("origin/main"),
            _ if line.ends_with("origin/main^{commit}") => ran("tttt"),
            _ if line.starts_with("merge-base") => ran(""),
            _ if line == "remote" => ran(""),
            _ => panic!("unexpected {line}"),
        };
        progress.hear(reply);
    }
    assert!(progress.is_complete());
    let (report, landing) = progress.finish(&id);
    assert_eq!(report.path, "/repo");
    assert_eq!(report.head, branch("feat"));
    assert_eq!(report.commits.len(), 2);
    assert_eq!(report.tracking, Tracking::NoUpstream);
    assert_eq!(
        report.landed,
        Landed::Merged {
            into: "origin/main".to_string()
        }
    );
    assert_eq!(report.landed, landing.landed);
    assert_eq!(report.unpushed, Unpushed::NoRemote);
    assert_eq!(
        report.problems,
        [
            "could not read the status of /repo: no status",
            "git for-each-ref timed out after 20s in /repo"
        ]
    );
}
