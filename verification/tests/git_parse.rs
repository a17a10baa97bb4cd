use standup::clock::{Civil, Moment};
use standup::config::Ignored;
use standup::git::ask::{exit_label, span, Output};
use standup::git::parse::{
    date_commits, instants_of, parse_header, parse_log, parse_log_ignoring, parse_numstat,
    parse_shortstat, parse_status, RECORD,
};
use standup::git::{
    choose_program, command_args, command_environment, program_candidates, Git, SCRUBBED_VARIABLES,
};
use standup::paths::Place;

#[test]
fn a_binary_file_counts_as_a_file_and_no_lines() {
    let (added, deleted, path) = parse_numstat(b"-\t-\tblob.bin").unwrap();
    assert_eq!(added, None);
    assert_eq!(deleted, None);
    assert_eq!(path, "blob.bin");
}

#[test]
fn a_numstat_path_may_contain_tabs_and_newlines() {
    let (added, deleted, path) = parse_numstat(b"3\t1\tweird\tname\nhere.txt").unwrap();
    assert_eq!(added, Some(3));
    assert_eq!(deleted, Some(1));
    assert_eq!(path, "weird\tname\nhere.txt");
}

#[test]
fn shortstat_survives_either_half_being_absent() {
    assert_eq!(
        parse_shortstat(" 3 files changed, 12 insertions(+), 4 deletions(-)"),
        (12, 4)
    );
    assert_eq!(parse_shortstat(" 1 file changed, 1 insertion(+)"), (1, 0));
    assert_eq!(parse_shortstat(" 1 file changed, 2 deletions(-)"), (0, 2));
    assert_eq!(parse_shortstat(""), (0, 0));
}

/// The framing claim, in isolation: a subject containing the record and unit
/// separators must not split a commit in two or swallow the next one.
#[test]
fn a_subject_containing_the_separators_does_not_desynchronise_the_parser() {
    let mut stream: Vec<u8> = Vec::new();
    stream.push(RECORD);
    stream.extend_from_slice(
        "aaaa\u{1f}\u{1f}agent\u{1f}1700000000\u{1f}subject with \u{1e} and \u{1f} in it"
            .as_bytes(),
    );
    stream.push(0);
    stream.extend_from_slice(b"\n2\t1\ta.txt");
    stream.push(0);
    stream.push(RECORD);
    stream.extend_from_slice("bbbb\u{1f}aaaa\u{1f}agent\u{1f}1700000100\u{1f}next".as_bytes());
    stream.push(0);

    let (commits, churn) = parse_log(&stream);
    assert_eq!(commits.len(), 2);
    assert_eq!(commits[0].subject, "subject with \u{1e} and \u{1f} in it");
    assert_eq!(commits[0].files, vec!["a.txt".to_string()]);
    assert_eq!(commits[1].subject, "next");
    assert_eq!(churn.files, 1);
    assert_eq!((churn.insertions, churn.deletions), (2, 1));
}

#[test]
fn churn_counts_the_union_of_paths_not_the_sum_of_file_counts() {
    let mut stream: Vec<u8> = Vec::new();
    for (index, oid) in ["aaaa", "bbbb", "cccc"].iter().enumerate() {
        stream.push(RECORD);
        stream.extend_from_slice(
            format!("{oid}\u{1f}pppp\u{1f}agent\u{1f}17000000{index:02}\u{1f}edit").as_bytes(),
        );
        stream.push(0);
        stream.extend_from_slice(b"\n1\t1\tshared.txt");
        stream.push(0);
    }
    let (commits, churn) = parse_log(&stream);
    assert_eq!(commits.len(), 3);
    assert_eq!(churn.files, 1, "one file edited three times is one file");
    assert_eq!((churn.insertions, churn.deletions), (3, 3));
}

#[test]
fn the_git_binary_is_resolved_to_something_runnable() {
    for runnable in [false, true] {
        let candidates = program_candidates(Some("/opt/tools:/bin"));
        let marks = vec![runnable; candidates.len()];
        let git = Git::new(choose_program(None, &candidates, &marks), 5);
        assert!(
            git.program().starts_with('/') || git.program() == "git",
            "unexpected git path {}",
            git.program()
        );
    }
}

#[test]
fn the_first_candidate_that_runs_is_the_binary() {
    let candidates = program_candidates(Some("/opt/tools:/bin"));
    assert_eq!(
        candidates,
        [
            "/opt/tools/git",
            "/bin/git",
            "/usr/bin/git",
            "/usr/local/bin/git"
        ]
    );
    let marks = vec![false, true, true, false];
    assert_eq!(choose_program(None, &candidates, &marks), "/bin/git");
    assert_eq!(
        choose_program(Some("/my/git"), &candidates, &marks),
        "/my/git"
    );
    assert_eq!(choose_program(Some(""), &candidates, &marks), "/bin/git");
    assert_eq!(choose_program(None, &candidates, &vec![false; 4]), "git");
    assert_eq!(
        program_candidates(None),
        ["/usr/bin/git", "/usr/local/bin/git"]
    );
}

#[test]
fn every_command_carries_the_read_only_flag() {
    let args = vec!["log".to_string(), "-z".to_string()];
    let line: Vec<String> = command_args(&Place::Named("/repo".to_string()), &args)
        .iter()
        .map(|part| part.display())
        .collect();
    assert_eq!(line, ["-C", "/repo", "--no-optional-locks", "log", "-z"]);
    // A path that is no text goes in as it is.
    let raw = Place::Raw(b"/w\xff".to_vec());
    assert_eq!(command_args(&raw, &args)[1], raw);
    let plain = command_environment(None);
    assert!(plain.contains(&("GIT_OPTIONAL_LOCKS".to_string(), "0".to_string())));
    assert!(plain.iter().all(|(name, _)| name != "GIT_INDEX_FILE"));
    assert!(SCRUBBED_VARIABLES.contains(&"GIT_INDEX_FILE"));
    let copied = command_environment(Some("/tmp/index"));
    assert_eq!(
        copied.last(),
        Some(&("GIT_INDEX_FILE".to_string(), "/tmp/index".to_string()))
    );
}

#[test]
fn a_header_that_is_not_one_is_no_commit() {
    assert_eq!(parse_header(b"aaaa"), None);
    assert_eq!(parse_header("a\u{1f}p\u{1f}me\u{1f}soon\u{1f}x".as_bytes()), None);
    let merge = parse_header("a\u{1f}p q\u{1f}me\u{1f}12\u{1f}Merge \n".as_bytes()).unwrap();
    assert_eq!(merge.oid, "a");
    assert_eq!(merge.author, "me");
    assert_eq!(merge.committed, 12);
    assert_eq!(merge.subject, "Merge");
    assert!(merge.is_merge);
}

#[test]
fn bytes_that_are_no_text_are_replaced_not_dropped() {
    let mut field = b"aaaa\x1f\x1fme\x1f12\x1fcaf".to_vec();
    field.push(0xe9);
    let commit = parse_header(&field).unwrap();
    assert_eq!(commit.subject, "caf\u{fffd}");

    let output = Output {
        code: Some(0),
        stdout: vec![0x61, 0xff, 0x0a],
        stderr: vec![0xff, 0x62],
    };
    assert!(output.ok());
    assert_eq!(output.stdout_text(), "a\u{fffd}");
    assert_eq!(output.stderr_text(), "\u{fffd}b");
}

/// The lines of a lock file are nobody's work, and the file is still a file.
#[test]
fn ignored_paths_add_files_but_no_lines() {
    let mut stream: Vec<u8> = Vec::new();
    stream.push(RECORD);
    stream.extend_from_slice("aaaa\u{1f}\u{1f}me\u{1f}1700000000\u{1f}bump".as_bytes());
    stream.push(0);
    stream.extend_from_slice(b"\n900\t800\tCargo.lock");
    stream.push(0);
    stream.extend_from_slice(b"2\t1\tsrc/lib.rs");
    stream.push(0);

    let (all, churn) = parse_log(&stream);
    assert_eq!((churn.files, churn.insertions, churn.deletions), (2, 902, 801));
    assert_eq!(churn.excluded, 0);
    assert_eq!((all[0].insertions, all[0].deletions), (902, 801));

    let (kept, churn) = parse_log_ignoring(&stream, &Ignored::default());
    assert_eq!((churn.files, churn.insertions, churn.deletions), (2, 2, 1));
    assert_eq!(churn.excluded, 1);
    assert_eq!((kept[0].insertions, kept[0].deletions), (2, 1));
    assert_eq!(
        kept[0].files,
        ["Cargo.lock".to_string(), "src/lib.rs".to_string()]
    );
}

#[test]
fn the_instants_are_dated_in_local_time() {
    let mut stream: Vec<u8> = Vec::new();
    stream.push(RECORD);
    stream.extend_from_slice("aaaa\u{1f}\u{1f}me\u{1f}1786835716\u{1f}late".as_bytes());
    stream.push(0);
    let (logged, _) = parse_log(&stream);
    assert_eq!(instants_of(&logged), [1_786_835_716]);

    let moments = vec![Moment {
        epoch: 1_786_835_716,
        civil: Some(Civil {
            years_since_1900: 126,
            month: 7,
            day: 15,
            hour: 23,
            minute: 15,
            second: 16,
            weekday: 6,
            offset_seconds: 0,
            zone: Some("UTC".to_string()),
        }),
    }];
    let dated = date_commits(&logged, &moments);
    assert_eq!(dated[0].subject, "late");
    assert_eq!(dated[0].committed.full(), "2026-08-15 23:15 UTC +0000");
    assert_eq!(dated[0].short_oid(), "aaaa");
}

#[test]
fn a_status_stream_is_counted_by_kind() {
    let stream = b"# branch.oid aaaa\x001 .M N... a.rs\x002 R. N... b.rs\x00u.rs\x00? c.rs\x00u UU d.rs\x00! e.rs\x00";
    // The old name behind a rename is not a record of its own.
    assert_eq!(parse_status(stream), (2, 1, 1));
    assert_eq!(parse_status(b""), (0, 0, 0));
}

#[test]
fn exits_and_spans_have_names() {
    assert_eq!(exit_label(Some(128)), "128");
    assert_eq!(exit_label(None), "on a signal");
    assert_eq!(span(20), "20s");
    assert_eq!(span(0), "0ns");
}
