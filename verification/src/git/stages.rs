//! The parts of a report, each a conversation of its own.

use vstd::prelude::*;

use crate::git;
use crate::git::ask;
use crate::git::ask::{Ask, Reply, Step};
use crate::git::parse;
use crate::git::Git;
use crate::model;
use crate::model::{Churn, Commit, Dirty, Head, Text, Tracking, Unpushed, Window};
use crate::paths;
use crate::strings;

verus! {

// ---------------------------------------------------------------------------
// The per-worktree git directory
// ---------------------------------------------------------------------------

pub open spec fn git_dir_args() -> Seq<Text> {
    seq!["rev-parse"@, "--path-format=absolute"@, "--git-dir"@]
}

/// The git directory of this worktree, where it could be learned.
pub open spec fn git_dir_step(
    git: git::GitView,
    path: Text,
    heard: Seq<ask::ReplyView>,
) -> ask::StepView<Option<Text>> {
    if heard.len() == 0 {
        ask::run(path, git_dir_args())
    } else {
        ask::done(
            if heard[0].ok() {
                Some(heard[0].answer())
            } else {
                None
            },
            git::trouble(git, path, "rev-parse"@, heard[0]),
        )
    }
}

/// A value that may be missing.
#[derive(Debug, PartialEq, Eq)]
pub struct Maybe {
    pub value: Option<String>,
}

impl View for Maybe {
    type V = Option<Text>;

    open spec fn view(&self) -> Option<Text> {
        strings::view_of(self.value)
    }
}

/// The git directory of this worktree, never the one it shares with others.
pub fn git_dir(git: &Git, path: &str, heard: &Vec<Reply>) -> (out: Step<Maybe>)
    ensures
        out@ == git_dir_step(git@, path@, strings::views(heard@)),
{
    broadcast use strings::group_lists;

    if heard.len() == 0 {
        let args = ["rev-parse", "--path-format=absolute", "--git-dir"];
        assert(strings::views(args@) =~= git_dir_args());
        return ask::ask_run(path, args.as_slice());
    }
    assert(strings::views(heard@)[0] == heard@[0]@);
    let problems = git::note_trouble(git, path, "rev-parse", &heard[0], Vec::new());
    let value = if heard[0].ok() {
        Some(heard[0].answer())
    } else {
        None
    };
    Step::Done { value: Maybe { value }, problems }
}

// ---------------------------------------------------------------------------
// HEAD
// ---------------------------------------------------------------------------

pub open spec fn symbolic_args() -> Seq<Text> {
    seq!["symbolic-ref"@, "-q"@, "HEAD"@]
}

/// The name of a branch, out of its full reference.
pub open spec fn branch_of(reference: Text) -> Text {
    match strings::stripped(reference, "refs/heads/"@) {
        Some(name) => name,
        None => reference,
    }
}

pub open spec fn lost_text(path: Text) -> Text {
    "HEAD in "@ + path + " is neither a branch nor a commit"@
}

pub open spec fn undecided_text(name: Text, path: Text) -> Text {
    "cannot tell whether "@ + name
        + " is unborn or was deleted: the per-worktree git directory of "@ + path
        + " could not be read"@
}

/// What HEAD is.
///
/// An unborn branch and one deleted underneath a live checkout look the same to
/// `symbolic-ref`. What tells them apart is the worktree's own HEAD reflog: a
/// checkout that ever had a commit has one.
pub open spec fn head_step(
    git: git::GitView,
    path: Text,
    git_dir: Option<Text>,
    heard: Seq<ask::ReplyView>,
) -> ask::StepView<Head<Text>> {
    let first = git::trouble(git, path, "symbolic-ref"@, heard[0]);
    let second = first + git::trouble(git, path, "rev-parse"@, heard[1]);
    if heard.len() == 0 {
        ask::run(path, symbolic_args())
    } else if heard[0].output() is None {
        ask::done(Head::Detached { oid: Seq::empty() }, first)
    } else if !heard[0].ok() {
        let oid = heard[1].answer();
        if heard.len() == 1 {
            ask::run(path, resolve_args("HEAD"@))
        } else if oid.len() == 0 {
            ask::done(Head::Detached { oid }, second.push(lost_text(path)))
        } else {
            ask::done(Head::Detached { oid }, second)
        }
    } else {
        let reference = heard[0].answer();
        let name = branch_of(reference);
        let oid = heard[1].answer();
        if heard.len() == 1 {
            ask::run(path, resolve_args(reference))
        } else if oid.len() > 0 {
            ask::done(Head::Branch { name, oid }, second)
        } else {
            match git_dir {
                None => ask::done(Head::Unborn { name }, second.push(undecided_text(name, path))),
                Some(dir) => if heard.len() == 2 {
                    ask::StepView::Ask(
                        ask::AskView::Exists { path: paths::below(dir, "logs/HEAD"@) },
                    )
                } else if heard[2] is Yes {
                    ask::done(Head::BranchDeleted { name }, second)
                } else {
                    ask::done(Head::Unborn { name }, second)
                },
            }
        }
    }
}

pub fn ask_resolve<V: View>(path: &str, reference: &str) -> (out: Step<V>)
    ensures
        out@ == ask::run::<V::V>(path@, resolve_args(reference@)),
{
    let commit = strings::cat2(reference, "^{commit}");
    let args = ["rev-parse", "--verify", "-q", commit.as_str()];
    assert(strings::views(args@) =~= resolve_args(reference@));
    ask::ask_run(path, args.as_slice())
}

fn is_yes(reply: &Reply) -> (answer: bool)
    ensures
        answer == (reply@ is Yes),
{
    matches!(reply, Reply::Yes)
}

/// A checkout whose HEAD points at a branch that does not resolve.
fn dangling(
    path: &str,
    git_dir: &Option<String>,
    name: String,
    heard: &Vec<Reply>,
    problems: Vec<String>,
) -> (out: Step<Head>)
    requires
        heard@.len() >= 2,
    ensures
        out@ == match strings::view_of(*git_dir) {
            None => ask::done(
                Head::Unborn { name: name@ },
                strings::views(problems@).push(undecided_text(name@, path@)),
            ),
            Some(dir) => if heard@.len() == 2 {
                ask::StepView::Ask(ask::AskView::Exists { path: paths::below(dir, "logs/HEAD"@) })
            } else if heard@[2]@ is Yes {
                ask::done(Head::BranchDeleted { name: name@ }, strings::views(problems@))
            } else {
                ask::done(Head::Unborn { name: name@ }, strings::views(problems@))
            },
        },
{
    broadcast use strings::group_lists;

    match git_dir {
        None => {
            let mut problems = problems;
            problems.push(
                strings::cat5(
                    "cannot tell whether ",
                    name.as_str(),
                    " is unborn or was deleted: the per-worktree git directory of ",
                    path,
                    " could not be read",
                ),
            );
            Step::Done { value: Head::Unborn { name }, problems }
        },
        Some(dir) => if heard.len() == 2 {
            Step::Ask(Ask::Exists { path: paths::join(dir.as_str(), "logs/HEAD") })
        } else if is_yes(&heard[2]) {
            Step::Done { value: Head::BranchDeleted { name }, problems }
        } else {
            Step::Done { value: Head::Unborn { name }, problems }
        },
    }
}

/// All four states of [`Head`].
pub fn head(
    git: &Git,
    path: &str,
    git_dir: &Option<String>,
    heard: &Vec<Reply>,
) -> (out: Step<Head>)
    ensures
        out@ == head_step(git@, path@, strings::view_of(*git_dir), strings::views(heard@)),
{
    broadcast use strings::group_lists;

    let ghost all = strings::views(heard@);
    if heard.len() == 0 {
        let args = ["symbolic-ref", "-q", "HEAD"];
        assert(strings::views(args@) =~= symbolic_args());
        return ask::ask_run(path, args.as_slice());
    }
    assert(all[0] == heard@[0]@);
    let mut problems = git::note_trouble(git, path, "symbolic-ref", &heard[0], Vec::new());
    let succeeded = match &heard[0] {
        Reply::Ran(out) => out.ok(),
        _ => {
            return Step::Done { value: Head::Detached { oid: String::new() }, problems };
        },
    };
    let reference = heard[0].answer();
    if heard.len() == 1 {
        return if succeeded {
            ask_resolve(path, reference.as_str())
        } else {
            ask_resolve(path, "HEAD")
        };
    }
    assert(all[1] == heard@[1]@);
    problems = git::note_trouble(git, path, "rev-parse", &heard[1], problems);
    let oid = heard[1].answer();
    if !succeeded {
        if strings::is_empty(oid.as_str()) {
            problems.push(
                strings::cat3("HEAD in ", path, " is neither a branch nor a commit"),
            );
        }
        return Step::Done { value: Head::Detached { oid }, problems };
    }
    let name = match strings::strip_prefix(reference.as_str(), "refs/heads/") {
        Some(name) => name,
        None => reference,
    };
    if !strings::is_empty(oid.as_str()) {
        return Step::Done { value: Head::Branch { name, oid }, problems };
    }
    assert(all.len() > 2 ==> all[2] == heard@[2]@);
    dangling(path, git_dir, name, heard, problems)
}

// ---------------------------------------------------------------------------
// Commits
// ---------------------------------------------------------------------------

/// The format of a log record. `%ct` is the commit time: the window filters on
/// it, so a commit shown by its author date could appear under a day that the
/// window never covered.
pub const LOG_FORMAT: &'static str = "--format=%x1e%H%x1f%P%x1f%an%x1f%ct%x1f%s";

/// The log over a window that starts where the option `since` says.
pub open spec fn log_args(since: Text, window: Window<Text>) -> Seq<Text> {
    let until = match window.until {
        Some(stamp) => seq!["--min-age="@ + strings::signed_decimal(stamp.epoch as int)],
        None => Seq::empty(),
    };
    seq!["log"@, since] + until + seq!["--numstat"@, "-z"@, "--no-renames"@, LOG_FORMAT@]
}

/// Filters on the commit date and walks the whole history.
pub open spec fn filter_option(window: Window<Text>) -> Text {
    "--since-as-filter=@"@ + strings::signed_decimal(window.since.epoch as int)
}

/// Stops walking at the first commit that is too old.
pub open spec fn cutoff_option(window: Window<Text>) -> Text {
    "--max-age="@ + strings::signed_decimal(window.since.epoch as int)
}

pub open spec fn fallback_text(git: git::GitView) -> Text {
    git.program
        + " does not support --since-as-filter; falling back to --max-age, which stops walking at the first commit older than the window and can miss commits behind a skewed committer timestamp"@
}

/// Whether the reply is that of a git that does not know the filter option.
pub open spec fn lacks_filter(reply: ask::ReplyView) -> bool {
    match reply.output() {
        Some(out) => !out.succeeded() && strings::holds(out.complaint(), "since-as-filter"@),
        None => false,
    }
}

#[verifier::ext_equal]
pub struct HistoryView {
    pub commits: Seq<model::CommitView>,
    pub churn: Churn,
}

pub open spec fn no_history() -> HistoryView {
    HistoryView { commits: Seq::empty(), churn: Churn::nothing() }
}

/// What the log came to, with the answers that follow it.
pub open spec fn history(
    git: git::GitView,
    path: Text,
    log: ask::ReplyView,
    after: Seq<ask::ReplyView>,
    problems: Seq<Text>,
) -> ask::StepView<HistoryView> {
    match log.output() {
        None => ask::done(no_history(), problems),
        Some(out) => if !out.succeeded() {
            if strings::holds(out.complaint(), "does not have any commits yet"@) {
                ask::done(no_history(), problems)
            } else {
                ask::done(
                    no_history(),
                    problems.push("could not read the log of "@ + path + ": "@ + out.complaint()),
                )
            }
        } else {
            let log = parse::logged(out.stdout, git.ignored);
            if log.commits.len() > 0 && after.len() == 0 {
                ask::StepView::Ask(
                    ask::AskView::LocalTimes { instants: parse::instants(log.commits) },
                )
            } else {
                let moments = if after.len() > 0 && after[0] is Times {
                    after[0]->Times_0
                } else {
                    Seq::empty()
                };
                ask::done(
                    HistoryView {
                        commits: parse::all_dated(log.commits, moments),
                        churn: parse::volume(log, git.ignored),
                    },
                    problems,
                )
            }
        },
    }
}

/// The commits in the window, and the churn they add up to. A git that cannot
/// filter is asked again with the pruning option, and the report says so.
pub open spec fn commits_step(
    git: git::GitView,
    path: Text,
    window: Window<Text>,
    heard: Seq<ask::ReplyView>,
) -> ask::StepView<HistoryView> {
    let first = git::trouble(git, path, "log"@, heard[0]);
    if heard.len() == 0 {
        ask::run(path, log_args(filter_option(window), window))
    } else if !lacks_filter(heard[0]) {
        history(git, path, heard[0], heard.skip(1), first)
    } else if heard.len() == 1 {
        ask::run(path, log_args(cutoff_option(window), window))
    } else {
        history(
            git,
            path,
            heard[1],
            heard.skip(2),
            first.push(fallback_text(git)) + git::trouble(git, path, "log"@, heard[1]),
        )
    }
}

#[derive(Debug, PartialEq, Eq)]
pub struct History {
    pub commits: Vec<Commit>,
    pub churn: Churn,
}

impl View for History {
    type V = HistoryView;

    open spec fn view(&self) -> HistoryView {
        HistoryView { commits: strings::views(self.commits@), churn: self.churn }
    }
}

pub fn empty_history() -> (out: History)
    ensures
        out@ == no_history(),
{
    let commits: Vec<Commit> = Vec::new();
    assert(strings::views(commits@) =~= Seq::empty());
    History { commits, churn: Churn::default() }
}

fn ask_log(path: &str, since: &str, window: &Window) -> (out: Step<History>)
    ensures
        out@ == ask::run::<HistoryView>(path@, log_args(since@, window@)),
{
    match &window.until {
        Some(stamp) => {
            let until = strings::cat2("--min-age=", strings::signed_number(stamp.epoch).as_str());
            let args = [
                "log",
                since,
                until.as_str(),
                "--numstat",
                "-z",
                "--no-renames",
                LOG_FORMAT,
            ];
            assert(strings::views(args@) =~= log_args(since@, window@));
            ask::ask_run(path, args.as_slice())
        },
        None => {
            let args = ["log", since, "--numstat", "-z", "--no-renames", LOG_FORMAT];
            assert(strings::views(args@) =~= log_args(since@, window@));
            ask::ask_run(path, args.as_slice())
        },
    }
}

/// Reads the log and, where it holds commits, renders their instants. `from` is
/// where the answers behind the log begin.
fn read_history(
    git: &Git,
    path: &str,
    log: &Reply,
    heard: &Vec<Reply>,
    from: usize,
    problems: Vec<String>,
) -> (out: Step<History>)
    requires
        from <= heard@.len(),
    ensures
        out@ == history(
            git@,
            path@,
            log@,
            strings::views(heard@).skip(from as int),
            strings::views(problems@),
        ),
{
    broadcast use strings::group_lists;

    let out = match log {
        Reply::Ran(out) => out,
        _ => {
            return Step::Done { value: empty_history(), problems };
        },
    };
    if !out.ok() {
        let complaint = out.stderr_text();
        if strings::contains(complaint.as_str(), "does not have any commits yet") {
            return Step::Done { value: empty_history(), problems };
        }
        let mut problems = problems;
        problems.push(
            strings::cat4("could not read the log of ", path, ": ", complaint.as_str()),
        );
        return Step::Done { value: empty_history(), problems };
    }
    let (logged, churn) = parse::parse_log_ignoring(out.stdout.as_slice(), git.ignored());
    let ghost after = strings::views(heard@).skip(from as int);
    assert(strings::views(logged@).len() == logged@.len());
    if logged.len() > 0 && heard.len() == from {
        return Step::Ask(Ask::LocalTimes { instants: parse::instants_of(&logged) });
    }
    let commits = if from < heard.len() {
        assert(after[0] == heard@[from as int]@);
        match &heard[from] {
            Reply::Times(moments) => parse::date_commits(&logged, moments),
            _ => {
                let none: Vec<crate::clock::Moment> = Vec::new();
                assert(strings::views(none@) =~= Seq::empty());
                parse::date_commits(&logged, &none)
            },
        }
    } else {
        let none: Vec<crate::clock::Moment> = Vec::new();
        assert(strings::views(none@) =~= Seq::empty());
        parse::date_commits(&logged, &none)
    };
    Step::Done { value: History { commits, churn }, problems }
}

/// The commits in the window, and the churn they add up to.
pub fn commits(git: &Git, path: &str, window: &Window, heard: &Vec<Reply>) -> (out: Step<History>)
    ensures
        out@ == commits_step(git@, path@, window@, strings::views(heard@)),
{
    broadcast use strings::group_lists;

    let ghost all = strings::views(heard@);
    let epoch = strings::signed_number(window.since.epoch);
    if heard.len() == 0 {
        return ask_log(
            path,
            strings::cat2("--since-as-filter=@", epoch.as_str()).as_str(),
            window,
        );
    }
    assert(all[0] == heard@[0]@);
    let mut problems = git::note_trouble(git, path, "log", &heard[0], Vec::new());
    let lacking = match &heard[0] {
        Reply::Ran(out) => !out.ok() && strings::contains(
            out.stderr_text().as_str(),
            "since-as-filter",
        ),
        _ => false,
    };
    if !lacking {
        return read_history(git, path, &heard[0], heard, 1, problems);
    }
    if heard.len() == 1 {
        return ask_log(path, strings::cat2("--max-age=", epoch.as_str()).as_str(), window);
    }
    assert(all[1] == heard@[1]@);
    problems.push(
        strings::cat2(
            git.program(),
            " does not support --since-as-filter; falling back to --max-age, which stops walking at the first commit older than the window and can miss commits behind a skewed committer timestamp",
        ),
    );
    let problems = git::note_trouble(git, path, "log", &heard[1], problems);
    read_history(git, path, &heard[1], heard, 2, problems)
}

// ---------------------------------------------------------------------------
// Uncommitted work
// ---------------------------------------------------------------------------

pub open spec fn status_args() -> Seq<Text> {
    seq!["status"@, "--porcelain=v2"@, "-z"@, "--untracked-files=all"@]
}

pub open spec fn diff_args() -> Seq<Text> {
    seq!["diff"@, "--shortstat"@]
}

pub open spec fn staged_args() -> Seq<Text> {
    seq!["diff"@, "--cached"@, "--shortstat"@]
}

/// The file counts of a status, and the problem of one that failed.
pub open spec fn counted(
    git: git::GitView,
    path: Text,
    reply: ask::ReplyView,
) -> (Dirty, Seq<Text>) {
    let problems = git::trouble(git, path, "status"@, reply);
    match reply.output() {
        None => (Dirty::nothing(), problems),
        Some(out) => if out.succeeded() {
            let counts = parse::status_from(strings::pieces(out.stdout, 0), 0);
            (
                Dirty {
                    tracked_changed: counts.0 as usize,
                    untracked: counts.1 as usize,
                    conflicted: counts.2 as usize,
                    insertions: 0,
                    deletions: 0,
                },
                problems,
            )
        } else {
            (
                Dirty::nothing(),
                problems.push("could not read the status of "@ + path + ": "@ + out.complaint()),
            )
        },
    }
}

/// The line counts with those of one more diff, and the problem of one that
/// failed.
pub open spec fn measured(
    git: git::GitView,
    path: Text,
    before: (Dirty, Seq<Text>),
    reply: ask::ReplyView,
) -> (Dirty, Seq<Text>) {
    let problems = before.1 + git::trouble(git, path, "diff"@, reply);
    match reply.output() {
        None => (before.0, problems),
        Some(out) => if out.succeeded() {
            let lines = parse::shortstat(strings::words(out.said()));
            (
                Dirty {
                    insertions: before.0.insertions.wrapping_add(lines.0),
                    deletions: before.0.deletions.wrapping_add(lines.1),
                    ..before.0
                },
                problems,
            )
        } else {
            (
                before.0,
                problems.push(
                    "could not measure uncommitted changes in "@ + path + ": "@ + out.complaint(),
                ),
            )
        },
    }
}

pub open spec fn unmeasured_text(path: Text, error: Text) -> Text {
    "could not measure uncommitted line counts in "@ + path + ": "@ + error
        + ". The file counts above are still accurate; the line counts are not, because measuring them safely needs a scratch copy of the index and one could not be made."@
}

/// Uncommitted work: file counts from `status`, line volume from two diffs that
/// run on a copy of the index, because a diff writes the index it reads. Where
/// there is no copy the lines are not measured, and where there is no index
/// there is nothing to measure.
pub open spec fn dirty_step(
    git: git::GitView,
    path: Text,
    git_dir: Option<Text>,
    heard: Seq<ask::ReplyView>,
) -> ask::StepView<Dirty> {
    let files = counted(git, path, heard[0]);
    let once = measured(git, path, files, heard[2]);
    let twice = measured(git, path, once, heard[3]);
    if heard.len() == 0 {
        ask::run(path, status_args())
    } else {
        match git_dir {
            None => ask::done(
                files.0,
                files.1.push(
                    unmeasured_text(path, "the per-worktree git directory could not be read"@),
                ),
            ),
            Some(dir) => if heard.len() == 1 {
                ask::StepView::Ask(ask::AskView::CopyIndex { index: paths::below(dir, "index"@) })
            } else {
                match heard[1] {
                    ask::ReplyView::Ready => if heard.len() == 2 {
                        ask::StepView::Ask(
                            ask::AskView::RunOnCopy { dir: path, args: diff_args() },
                        )
                    } else if heard.len() == 3 {
                        ask::StepView::Ask(
                            ask::AskView::RunOnCopy { dir: path, args: staged_args() },
                        )
                    } else {
                        ask::done(twice.0, twice.1)
                    },
                    ask::ReplyView::NotMade(error) => ask::done(
                        files.0,
                        files.1.push(unmeasured_text(path, error)),
                    ),
                    _ => ask::done(files.0, files.1),
                }
            },
        }
    }
}

fn count_files(git: &Git, path: &str, reply: &Reply) -> (out: (Dirty, Vec<String>))
    ensures
        (out.0, strings::views(out.1@)) == counted(git@, path@, reply@),
{
    broadcast use strings::group_lists;

    let mut problems = git::note_trouble(git, path, "status", reply, Vec::new());
    let mut dirty = Dirty::default();
    match reply {
        Reply::Ran(out) => if out.ok() {
            let (changed, untracked, conflicted) = parse::parse_status(out.stdout.as_slice());
            dirty.tracked_changed = changed;
            dirty.untracked = untracked;
            dirty.conflicted = conflicted;
        } else {
            problems.push(
                strings::cat4(
                    "could not read the status of ",
                    path,
                    ": ",
                    out.stderr_text().as_str(),
                ),
            );
        },
        _ => {},
    }
    (dirty, problems)
}

fn measure(
    git: &Git,
    path: &str,
    dirty: Dirty,
    problems: Vec<String>,
    reply: &Reply,
) -> (out: (Dirty, Vec<String>))
    ensures
        (out.0, strings::views(out.1@)) == measured(
            git@,
            path@,
            (dirty, strings::views(problems@)),
            reply@,
        ),
{
    broadcast use strings::group_lists;

    let mut problems = git::note_trouble(git, path, "diff", reply, problems);
    let mut dirty = dirty;
    match reply {
        Reply::Ran(out) => if out.ok() {
            let (insertions, deletions) = parse::parse_shortstat(out.stdout_text().as_str());
            dirty.insertions = dirty.insertions.wrapping_add(insertions);
            dirty.deletions = dirty.deletions.wrapping_add(deletions);
        } else {
            problems.push(
                strings::cat4(
                    "could not measure uncommitted changes in ",
                    path,
                    ": ",
                    out.stderr_text().as_str(),
                ),
            );
        },
        _ => {},
    }
    (dirty, problems)
}

fn unmeasured(path: &str, error: &str) -> (out: String)
    ensures
        out@ == unmeasured_text(path@, error@),
{
    strings::cat5(
        "could not measure uncommitted line counts in ",
        path,
        ": ",
        error,
        ". The file counts above are still accurate; the line counts are not, because measuring them safely needs a scratch copy of the index and one could not be made.",
    )
}

/// Uncommitted work.
pub fn dirty(
    git: &Git,
    path: &str,
    git_dir: &Option<String>,
    heard: &Vec<Reply>,
) -> (out: Step<Dirty>)
    ensures
        out@ == dirty_step(git@, path@, strings::view_of(*git_dir), strings::views(heard@)),
{
    broadcast use strings::group_lists;

    let ghost all = strings::views(heard@);
    if heard.len() == 0 {
        let args = ["status", "--porcelain=v2", "-z", "--untracked-files=all"];
        assert(strings::views(args@) =~= status_args());
        return ask::ask_run(path, args.as_slice());
    }
    assert(all[0] == heard@[0]@);
    let (files, mut problems) = count_files(git, path, &heard[0]);
    let dir = match git_dir {
        None => {
            problems.push(unmeasured(path, "the per-worktree git directory could not be read"));
            return Step::Done { value: files, problems };
        },
        Some(dir) => dir,
    };
    if heard.len() == 1 {
        return Step::Ask(Ask::CopyIndex { index: paths::join(dir.as_str(), "index") });
    }
    assert(all[1] == heard@[1]@);
    match &heard[1] {
        Reply::Ready => {},
        Reply::NotMade(error) => {
            problems.push(unmeasured(path, error.as_str()));
            return Step::Done { value: files, problems };
        },
        _ => {
            return Step::Done { value: files, problems };
        },
    }
    if heard.len() == 2 {
        let args = ["diff", "--shortstat"];
        assert(strings::views(args@) =~= diff_args());
        return ask::ask_run_on_copy(path, args.as_slice());
    }
    if heard.len() == 3 {
        let args = ["diff", "--cached", "--shortstat"];
        assert(strings::views(args@) =~= staged_args());
        return ask::ask_run_on_copy(path, args.as_slice());
    }
    assert(all[2] == heard@[2]@);
    assert(all[3] == heard@[3]@);
    let (once, problems) = measure(git, path, files, problems, &heard[2]);
    let (value, problems) = measure(git, path, once, problems, &heard[3]);
    Step::Done { value, problems }
}

// ---------------------------------------------------------------------------
// Unpushed work
// ---------------------------------------------------------------------------

pub open spec fn remotes_args() -> Seq<Text> {
    seq!["remote"@]
}

pub open spec fn unpushed_args() -> Seq<Text> {
    seq!["rev-list"@, "--count"@, "HEAD"@, "--not"@, "--remotes"@]
}

/// What went wrong with a command that was to find out about unpushed work.
pub open spec fn unpushed_fault(what: Text, path: Text, reply: ask::ReplyView) -> Text {
    match reply.output() {
        Some(out) => "could not "@ + what + " of "@ + path + ": "@ + out.complaint(),
        None => "could not "@ + what + " of "@ + path,
    }
}

pub open spec fn unreadable_count(path: Text, answer: Text) -> Text {
    "could not read the count of unpushed commits of "@ + path + ": "@ + strings::quoted_text(
        answer,
    )
}

/// A count that is not known, and why. The reason is a problem of the report
/// too, unless the trouble with the command is one already: what could not be
/// found out never looks like nothing to report.
pub open spec fn unpushed_unknown(
    reason: Text,
    trouble: Seq<Text>,
) -> ask::StepView<Unpushed<Text>> {
    ask::done(
        Unpushed::Unknown { reason },
        if trouble.len() > 0 {
            trouble
        } else {
            seq![reason]
        },
    )
}

/// Commits reachable from HEAD and from no remote-tracking branch.
pub open spec fn unpushed_step(
    git: git::GitView,
    path: Text,
    head: Head<Text>,
    heard: Seq<ask::ReplyView>,
) -> ask::StepView<Unpushed<Text>> {
    let first = git::trouble(git, path, "remote"@, heard[0]);
    let second = git::trouble(git, path, "rev-list"@, heard[1]);
    if head.oid() is None || (head.oid()->0).len() == 0 {
        ask::done(Unpushed::Unknown { reason: "HEAD has no commit"@ }, Seq::empty())
    } else if heard.len() == 0 {
        ask::run(path, remotes_args())
    } else if !heard[0].ok() {
        unpushed_unknown(unpushed_fault("list the remotes"@, path, heard[0]), first)
    } else if heard[0].answer().len() == 0 {
        ask::done(Unpushed::NoRemote, Seq::empty())
    } else if heard.len() == 1 {
        ask::run(path, unpushed_args())
    } else if !heard[1].ok() {
        unpushed_unknown(unpushed_fault("count the unpushed commits"@, path, heard[1]), second)
    } else {
        match number_word(heard[1].answer()) {
            Some(count) => ask::done(Unpushed::Commits { count }, Seq::empty()),
            None => unpushed_unknown(unreadable_count(path, heard[1].answer()), Seq::empty()),
        }
    }
}

fn explain_unpushed(what: &str, path: &str, reply: &Reply) -> (out: String)
    ensures
        out@ == unpushed_fault(what@, path@, reply@),
{
    let start = strings::cat4("could not ", what, " of ", path);
    match reply {
        Reply::Ran(out) => strings::cat3(start.as_str(), ": ", out.stderr_text().as_str()),
        _ => start,
    }
}

fn unknown_unpushed(reason: String, trouble: Vec<String>) -> (out: Step<Unpushed>)
    ensures
        out@ == unpushed_unknown(reason@, strings::views(trouble@)),
{
    broadcast use strings::group_lists;

    let mut problems = trouble;
    assert(strings::views(problems@).len() == problems@.len());
    if problems.len() == 0 {
        problems.push(reason.clone());
        assert(strings::views(problems@) =~= seq![reason@]);
    }
    Step::Done { value: Unpushed::Unknown { reason }, problems }
}

/// Commits that exist in this checkout and on no remote.
pub fn unpushed(git: &Git, path: &str, head: &Head, heard: &Vec<Reply>) -> (out: Step<Unpushed>)
    ensures
        out@ == unpushed_step(git@, path@, head@, strings::views(heard@)),
{
    broadcast use strings::group_lists;

    let ghost all = strings::views(heard@);
    let problems: Vec<String> = Vec::new();
    assert(strings::views(problems@) =~= Seq::empty());
    let has_commit = match head.oid() {
        Some(oid) => !strings::is_empty(oid),
        None => false,
    };
    if !has_commit {
        return Step::Done {
            value: Unpushed::Unknown { reason: "HEAD has no commit".to_string() },
            problems,
        };
    }
    if heard.len() == 0 {
        let args = ["remote"];
        assert(strings::views(args@) =~= remotes_args());
        return ask::ask_run(path, args.as_slice());
    }
    assert(all[0] == heard@[0]@);
    if !heard[0].ok() {
        let trouble = git::note_trouble(git, path, "remote", &heard[0], problems);
        assert(strings::views(trouble@) =~= git::trouble(git@, path@, "remote"@, all[0]));
        return unknown_unpushed(explain_unpushed("list the remotes", path, &heard[0]), trouble);
    }
    if strings::is_empty(heard[0].answer().as_str()) {
        return Step::Done { value: Unpushed::NoRemote, problems };
    }
    if heard.len() == 1 {
        let args = ["rev-list", "--count", "HEAD", "--not", "--remotes"];
        assert(strings::views(args@) =~= unpushed_args());
        return ask::ask_run(path, args.as_slice());
    }
    assert(all[1] == heard@[1]@);
    if !heard[1].ok() {
        let trouble = git::note_trouble(git, path, "rev-list", &heard[1], problems);
        assert(strings::views(trouble@) =~= git::trouble(git@, path@, "rev-list"@, all[1]));
        let reason = explain_unpushed("count the unpushed commits", path, &heard[1]);
        return unknown_unpushed(reason, trouble);
    }
    let text = heard[1].answer();
    match strings::parse_unsigned(text.as_str(), u64::MAX) {
        Ok(count) => Step::Done { value: Unpushed::Commits { count }, problems },
        Err(_) => {
            let reason = strings::cat4(
                "could not read the count of unpushed commits of ",
                path,
                ": ",
                strings::quoted(text.as_str()).as_str(),
            );
            unknown_unpushed(reason, problems)
        },
    }
}

/// An unpushed count that git could not give is a problem of the report.
pub proof fn law_an_unknown_count_is_a_problem(
    git: git::GitView,
    path: Text,
    head: Head<Text>,
    heard: Seq<ask::ReplyView>,
)
    requires
        unpushed_step(git, path, head, heard) is Done,
        unpushed_step(git, path, head, heard)->value is Unknown,
        head.oid() is Some,
        (head.oid()->0).len() > 0,
    ensures
        unpushed_step(git, path, head, heard)->problems.len() > 0,
{
}

// ---------------------------------------------------------------------------
// Upstream
// ---------------------------------------------------------------------------

pub open spec fn resolve_args(reference: Text) -> Seq<Text> {
    seq!["rev-parse"@, "--verify"@, "-q"@, reference + "^{commit}"@]
}

pub open spec fn upstream_args(branch: Text) -> Seq<Text> {
    seq!["for-each-ref"@, "--format=%(upstream:short)"@, "refs/heads/"@ + branch]
}

pub open spec fn counts_args(upstream: Text) -> Seq<Text> {
    seq!["rev-list"@, "--left-right"@, "--count"@, upstream + "...HEAD"@]
}

/// The number a word stands for, where it stands for one.
pub open spec fn number_word(word: Text) -> Option<u64> {
    match strings::unsigned_value(word, u64::MAX as nat) {
        Ok(n) => Some(n as u64),
        Err(_) => None,
    }
}

/// The first two words of a text as numbers, where both are.
pub open spec fn two_numbers(s: Text) -> Option<(u64, u64)> {
    let words = strings::words(s);
    if words.len() < 2 {
        None
    } else {
        match (number_word(words[0]), number_word(words[1])) {
            (Some(first), Some(second)) => Some((first, second)),
            _ => None,
        }
    }
}

/// How a branch stands against its upstream, from what the count of commits on
/// either side came to. The left count is the upstream's.
pub open spec fn compared(
    branch: Text,
    upstream: Text,
    reply: ask::ReplyView,
) -> (Tracking<Text>, Seq<Text>) {
    let missing = Tracking::UpstreamMissing { name: upstream };
    match reply.output() {
        Some(out) => if out.succeeded() {
            match two_numbers(out.said()) {
                Some((behind, ahead)) => (
                    Tracking::Upstream { name: upstream, ahead, behind },
                    Seq::empty(),
                ),
                None => (
                    missing,
                    seq![
                        "could not read the ahead/behind counts against "@ + upstream + ": "@
                            + strings::quoted_text(out.said()),
                    ],
                ),
            }
        } else {
            (
                missing,
                seq![
                    "could not compare "@ + branch + " with "@ + upstream + ": "@
                        + out.complaint(),
                ],
            )
        },
        None => (missing, Seq::empty()),
    }
}

/// Upstream tracking for the checked-out branch: whether it has an upstream,
/// whether that still resolves, and how the two differ.
pub open spec fn tracking_step(
    git: git::GitView,
    path: Text,
    head: Head<Text>,
    heard: Seq<ask::ReplyView>,
) -> ask::StepView<Tracking<Text>> {
    match head {
        Head::Branch { name, .. } => {
            let upstream = heard[0].answer();
            let first = git::trouble(git, path, "for-each-ref"@, heard[0]);
            let second = first + git::trouble(git, path, "rev-parse"@, heard[1]);
            let third = second + git::trouble(git, path, "rev-list"@, heard[2]);
            if heard.len() == 0 {
                ask::run(path, upstream_args(name))
            } else if upstream.len() == 0 {
                ask::done(Tracking::NoUpstream, first)
            } else if heard.len() == 1 {
                ask::run(path, resolve_args(upstream))
            } else if !heard[1].ok() {
                ask::done(Tracking::UpstreamMissing { name: upstream }, second)
            } else if heard.len() == 2 {
                ask::run(path, counts_args(upstream))
            } else {
                let verdict = compared(name, upstream, heard[2]);
                ask::done(verdict.0, third + verdict.1)
            }
        },
        _ => ask::done(Tracking::NotApplicable, Seq::empty()),
    }
}

fn read_two_numbers(s: &str) -> (out: Option<(u64, u64)>)
    ensures
        out == two_numbers(s@),
{
    let words = strings::split_words(s);
    assert(strings::views(words@).len() == words@.len());
    if words.len() < 2 {
        return None;
    }
    assert(strings::views(words@)[0] == words@[0]@);
    assert(strings::views(words@)[1] == words@[1]@);
    let first = strings::parse_unsigned(words[0].as_str(), u64::MAX);
    let second = strings::parse_unsigned(words[1].as_str(), u64::MAX);
    match (first, second) {
        (Ok(first), Ok(second)) => Some((first, second)),
        _ => None,
    }
}

fn compare_upstream(branch: &str, upstream: String, reply: &Reply) -> (out: (Tracking, Vec<String>))
    ensures
        (out.0@, strings::views(out.1@)) == compared(branch@, upstream@, reply@),
{
    broadcast use strings::group_lists;

    let mut problems: Vec<String> = Vec::new();
    match reply {
        Reply::Ran(out) => if out.ok() {
            let text = out.stdout_text();
            match read_two_numbers(text.as_str()) {
                Some((behind, ahead)) => (
                    Tracking::Upstream { name: upstream, ahead, behind },
                    problems,
                ),
                None => {
                    problems.push(
                        strings::cat4(
                            "could not read the ahead/behind counts against ",
                            upstream.as_str(),
                            ": ",
                            strings::quoted(text.as_str()).as_str(),
                        ),
                    );
                    assert(strings::views(problems@) =~= seq![
                        "could not read the ahead/behind counts against "@ + upstream@ + ": "@
                            + strings::quoted_text(text@),
                    ]);
                    (Tracking::UpstreamMissing { name: upstream }, problems)
                },
            }
        } else {
            let start = strings::cat4("could not compare ", branch, " with ", upstream.as_str());
            problems.push(strings::cat3(start.as_str(), ": ", out.stderr_text().as_str()));
            assert(strings::views(problems@) =~= compared(branch@, upstream@, reply@).1);
            (Tracking::UpstreamMissing { name: upstream }, problems)
        },
        _ => (Tracking::UpstreamMissing { name: upstream }, problems),
    }
}

/// Upstream tracking for the checked-out branch.
pub fn tracking(git: &Git, path: &str, head: &Head, heard: &Vec<Reply>) -> (out: Step<Tracking>)
    ensures
        out@ == tracking_step(git@, path@, head@, strings::views(heard@)),
{
    broadcast use strings::group_lists;

    let ghost all = strings::views(heard@);
    let mut problems: Vec<String> = Vec::new();
    let name = match head {
        Head::Branch { name, .. } => name,
        _ => {
            return Step::Done { value: Tracking::NotApplicable, problems };
        },
    };
    if heard.len() == 0 {
        let reference = strings::cat2("refs/heads/", name.as_str());
        let args = ["for-each-ref", "--format=%(upstream:short)", reference.as_str()];
        assert(strings::views(args@) =~= upstream_args(name@));
        return ask::ask_run(path, args.as_slice());
    }
    assert(all[0] == heard@[0]@);
    problems = git::note_trouble(git, path, "for-each-ref", &heard[0], problems);
    let upstream = heard[0].answer();
    if strings::is_empty(upstream.as_str()) {
        return Step::Done { value: Tracking::NoUpstream, problems };
    }
    if heard.len() == 1 {
        return ask_resolve(path, upstream.as_str());
    }
    assert(all[1] == heard@[1]@);
    problems = git::note_trouble(git, path, "rev-parse", &heard[1], problems);
    if !heard[1].ok() {
        return Step::Done { value: Tracking::UpstreamMissing { name: upstream }, problems };
    }
    if heard.len() == 2 {
        let range = strings::cat2(upstream.as_str(), "...HEAD");
        let args = ["rev-list", "--left-right", "--count", range.as_str()];
        assert(strings::views(args@) =~= counts_args(upstream@));
        return ask::ask_run(path, args.as_slice());
    }
    assert(all[2] == heard@[2]@);
    problems = git::note_trouble(git, path, "rev-list", &heard[2], problems);
    let (value, mut more) = compare_upstream(name.as_str(), upstream, &heard[2]);
    problems.append(&mut more);
    Step::Done { value, problems }
}

// ---------------------------------------------------------------------------
// Laws
// ---------------------------------------------------------------------------

/// What HEAD is rests on what was answered: a branch is a name that points at a
/// commit, a detached HEAD has no name, and a name that points at nothing is a
/// branch that was deleted where HEAD has been anywhere before, and an unborn one
/// where it has not.
pub proof fn law_head_is_what_was_answered(
    git: git::GitView,
    path: Text,
    git_dir: Option<Text>,
    heard: Seq<ask::ReplyView>,
)
    requires
        head_step(git, path, git_dir, heard) is Done,
    ensures
        ({
            let named = |name: Text|
                {
                    &&& heard[0].ok()
                    &&& if strings::begins(heard[0].answer(), "refs/heads/"@) {
                        heard[0].answer() == "refs/heads/"@ + name
                    } else {
                        heard[0].answer() == name
                    }
                };
            match head_step(git, path, git_dir, heard)->value {
                Head::Branch { name, oid } => named(name) && heard.len() >= 2 && oid.len() > 0
                    && oid == heard[1].answer(),
                Head::Detached { oid } => !heard[0].ok() && (oid.len() == 0 || heard.len() >= 2
                    && oid == heard[1].answer()),
                Head::BranchDeleted { name } => named(name) && heard.len() >= 3
                    && heard[1].answer().len() == 0 && heard[2] is Yes,
                Head::Unborn { name } => named(name) && heard.len() >= 2
                    && heard[1].answer().len() == 0 && (git_dir is None || heard.len() >= 3 && !(
                heard[2] is Yes)),
            }
        }),
{
    strings::law_a_prefix_comes_off("refs/heads/"@, Seq::empty(), heard[0].answer());
}

/// The two states that look alike are told apart, or it is said that they could
/// not be; and a HEAD that is nothing at all is a problem.
pub proof fn law_an_undecided_head_is_a_problem(
    git: git::GitView,
    path: Text,
    git_dir: Option<Text>,
    heard: Seq<ask::ReplyView>,
)
    requires
        head_step(git, path, git_dir, heard) is Done,
    ensures
        ({
            let step = head_step(git, path, git_dir, heard);
            &&& step->value is Unborn && git_dir is None ==> step->problems.len() > 0
            &&& step->value is Detached && heard[0] is Ran && step->value->Detached_oid.len() == 0
                ==> step->problems.len() > 0
        }),
{
}

/// The log is asked for the window and nothing else: its start, and its end
/// where it has one. Where the filter is not known the same start goes in as the
/// cut-off, and that is a problem.
pub proof fn law_the_log_is_asked_for_the_window(
    git: git::GitView,
    path: Text,
    window: Window<Text>,
    reply: ask::ReplyView,
)
    ensures
        ({
            let since = strings::signed_decimal(window.since.epoch as int);
            let rest = seq!["--numstat"@, "-z"@, "--no-renames"@, LOG_FORMAT@];
            let ends = match window.until {
                Some(until) => seq!["--min-age="@ + strings::signed_decimal(until.epoch as int)],
                None => Seq::<Text>::empty(),
            };
            let first = commits_step(git, path, window, Seq::empty());
            let second = commits_step(git, path, window, seq![reply]);
            &&& first == ask::run::<HistoryView>(
                path,
                seq!["log"@, "--since-as-filter=@"@ + since] + ends + rest,
            )
            &&& reply is Ran && reply->Ran_0.code != Some(0i32) && strings::holds(
                reply->Ran_0.complaint(),
                "since-as-filter"@,
            ) ==> second == ask::run::<HistoryView>(
                path,
                seq!["log"@, "--max-age="@ + since] + ends + rest,
            )
        }),
{
}

/// A history is the whole log that was read, in its order, with its volume; one
/// that could not be read is a problem, unless there is nothing to read yet.
pub proof fn law_a_history_is_the_log(
    git: git::GitView,
    path: Text,
    log: ask::ReplyView,
    after: Seq<ask::ReplyView>,
    problems: Seq<Text>,
)
    requires
        history(git, path, log, after, problems) is Done,
    ensures
        ({
            let step = history(git, path, log, after, problems);
            let read = parse::logged(log->Ran_0.stdout, git.ignored);
            if log is Ran && log->Ran_0.code == Some(0i32) {
                &&& step->value.commits.len() == read.commits.len()
                &&& forall|i: int|
                    0 <= i < read.commits.len() ==> (#[trigger] step->value.commits[i]).oid
                        == read.commits[i].oid && step->value.commits[i].committed.epoch
                        == read.commits[i].committed && step->value.commits[i].insertions
                        == read.commits[i].insertions && step->value.commits[i].deletions
                        == read.commits[i].deletions && step->value.commits[i].files
                        == read.commits[i].files
                &&& step->value.churn == parse::volume(read, git.ignored)
                &&& step->problems == problems
            } else {
                &&& step->value.commits.len() == 0
                &&& problems.is_prefix_of(step->problems)
                &&& log is Ran && !strings::holds(
                    log->Ran_0.complaint(),
                    "does not have any commits yet"@,
                ) ==> step->problems.len() == problems.len() + 1
            }
        }),
{
    if log is Ran && log->Ran_0.code == Some(0i32) {
        let read = parse::logged(log->Ran_0.stdout, git.ignored);
        let moments = if after.len() > 0 && after[0] is Times {
            after[0]->Times_0
        } else {
            Seq::empty()
        };
        assert forall|i: int| 0 <= i < read.commits.len() implies {
            let found = #[trigger] parse::all_dated(read.commits, moments)[i];
            &&& found.oid == read.commits[i].oid
            &&& found.committed.epoch == read.commits[i].committed
            &&& found.insertions == read.commits[i].insertions
            &&& found.deletions == read.commits[i].deletions
            &&& found.files == read.commits[i].files
        } by {
            parse::law_dating_keeps_the_commits(read.commits, moments, i);
        }
        if read.commits.len() > 0 {
            parse::law_dating_keeps_the_commits(read.commits, moments, 0);
        }
    }
}

/// Uncommitted work is what the status counts and what the two diffs add up to,
/// one of the working tree and one of the index; it is never less for the line
/// counts that could not be had, and those are a problem.
pub proof fn law_uncommitted_work_is_counted_and_measured(
    git: git::GitView,
    path: Text,
    git_dir: Option<Text>,
    heard: Seq<ask::ReplyView>,
)
    requires
        dirty_step(git, path, git_dir, heard) is Done,
        heard[0] is Ran,
        heard[0]->Ran_0.code == Some(0i32),
    ensures
        ({
            let step = dirty_step(git, path, git_dir, heard);
            let counts = parse::status_from(strings::pieces(heard[0]->Ran_0.stdout, 0), 0);
            let lines = |reply: ask::ReplyView|
                if reply is Ran && reply->Ran_0.code == Some(0i32) {
                    parse::shortstat(strings::words(reply->Ran_0.said()))
                } else {
                    (0u64, 0u64)
                };
            &&& step->value.tracked_changed == counts.0 as usize
            &&& step->value.untracked == counts.1 as usize
            &&& step->value.conflicted == counts.2 as usize
            &&& if git_dir is Some && heard[1] is Ready {
                &&& step->value.insertions == lines(heard[2]).0.wrapping_add(lines(heard[3]).0)
                &&& step->value.deletions == lines(heard[2]).1.wrapping_add(lines(heard[3]).1)
                &&& heard[2] is Ran && heard[2]->Ran_0.code != Some(0i32) ==> step->problems.len()
                    > 0
                &&& heard[3] is Ran && heard[3]->Ran_0.code != Some(0i32) ==> step->problems.len()
                    > 0
            } else {
                &&& step->value.insertions == 0 && step->value.deletions == 0
                &&& git_dir is None || heard[1] is NotMade ==> step->problems.len() > 0
            }
        }),
{
}

/// A status that could not be read is a problem, never a clean checkout in
/// silence.
pub proof fn law_an_unread_status_is_a_problem(
    git: git::GitView,
    path: Text,
    git_dir: Option<Text>,
    heard: Seq<ask::ReplyView>,
)
    requires
        dirty_step(git, path, git_dir, heard) is Done,
        heard[0] is Ran ==> heard[0]->Ran_0.code != Some(0i32),
        heard[0] is Ran || heard[0] is TimedOut || heard[0] is NotStarted || heard[0] is NotAwaited,
    ensures
        dirty_step(git, path, git_dir, heard)->problems.len() > 0,
{
    let files = counted(git, path, heard[0]);
    assert(files.1.len() > 0);
}

/// The counts of an upstream are the two numbers that git prints for it, the
/// commits of the upstream first: those are how far behind a branch is, and the
/// others how far ahead.
pub proof fn law_ahead_and_behind_are_read_as_printed(
    git: git::GitView,
    path: Text,
    name: Text,
    oid: Text,
    heard: Seq<ask::ReplyView>,
    behind: nat,
    ahead: nat,
)
    requires
        heard.len() >= 3,
        heard[0].answer().len() > 0,
        heard[1].ok(),
        heard[2].ok(),
        heard[2].answer() == strings::decimal(behind).push('\t') + strings::decimal(ahead),
        behind <= u64::MAX,
        ahead <= u64::MAX,
    ensures
        tracking_step(git, path, Head::Branch { name, oid }, heard) is Done,
        tracking_step(git, path, Head::Branch { name, oid }, heard)->value == (Tracking::Upstream {
            name: heard[0].answer(),
            ahead: ahead as u64,
            behind: behind as u64,
        }),
{
    lemma_number_is_a_word(behind);
    lemma_number_is_a_word(ahead);
    assert(strings::white('\t'));
    strings::law_words_come_apart_at_white_space(
        strings::decimal(behind),
        '\t',
        strings::decimal(ahead),
    );
    strings::law_a_written_number_reads_back(behind, u64::MAX as nat);
    strings::law_a_written_number_reads_back(ahead, u64::MAX as nat);
    assert(strings::words(heard[2].answer()) =~= seq![
        strings::decimal(behind),
        strings::decimal(ahead),
    ]);
}

proof fn lemma_number_is_a_word(n: nat)
    ensures
        strings::words(strings::decimal(n)) == seq![strings::decimal(n)],
{
    let s = strings::decimal(n);
    strings::lemma_decimal_digits(n);
    assert forall|i: int| 0 <= i < s.len() implies !strings::white(#[trigger] s[i]) by {
        assert(strings::digit(s[i]));
    }
    strings::law_a_text_without_white_space_is_one_word(s);
}

/// What a branch tracks rests on what was answered: no name is no upstream, a
/// name that does not resolve is a missing one, and only a branch has any. The
/// name is always the one that git gave.
pub proof fn law_tracking_is_what_was_answered(
    git: git::GitView,
    path: Text,
    head: Head<Text>,
    heard: Seq<ask::ReplyView>,
)
    requires
        tracking_step(git, path, head, heard) is Done,
    ensures
        ({
            let step = tracking_step(git, path, head, heard);
            match step->value {
                Tracking::NotApplicable => !(head is Branch),
                Tracking::NoUpstream => head is Branch && heard[0].answer().len() == 0,
                Tracking::UpstreamMissing { name } => {
                    &&& head is Branch && name == heard[0].answer() && name.len() > 0
                    &&& !heard[1].ok() || heard.len() >= 3
                    &&& heard[1].ok() && heard[2] is Ran ==> step->problems.len() > 0
                },
                Tracking::Upstream { name, ahead, behind } => {
                    &&& head is Branch && name == heard[0].answer() && name.len() > 0
                    &&& heard[1].ok() && heard[2].ok()
                },
            }
        }),
{
}

/// What is asked of an upstream is about the branch and the upstream at hand.
pub proof fn law_an_upstream_is_asked_about_by_name(
    git: git::GitView,
    path: Text,
    name: Text,
    oid: Text,
    first: ask::ReplyView,
    second: ask::ReplyView,
)
    requires
        first.answer().len() > 0,
        second.ok(),
    ensures
        ({
            let head = Head::Branch { name, oid };
            let upstream = first.answer();
            &&& tracking_step(git, path, head, Seq::empty()) == ask::run::<Tracking<Text>>(
                path,
                seq!["for-each-ref"@, "--format=%(upstream:short)"@, "refs/heads/"@ + name],
            )
            &&& tracking_step(git, path, head, seq![first]) == ask::run::<Tracking<Text>>(
                path,
                seq!["rev-parse"@, "--verify"@, "-q"@, upstream + "^{commit}"@],
            )
            &&& tracking_step(git, path, head, seq![first, second]) == ask::run::<Tracking<Text>>(
                path,
                seq!["rev-list"@, "--left-right"@, "--count"@, upstream + "...HEAD"@],
            )
        }),
{
}

/// The number of commits that are on no remote is the one git prints.
pub proof fn law_unpushed_commits_are_read_as_printed(
    git: git::GitView,
    path: Text,
    head: Head<Text>,
    heard: Seq<ask::ReplyView>,
    count: nat,
)
    requires
        head.oid() is Some,
        (head.oid()->0).len() > 0,
        heard.len() >= 2,
        heard[0].ok(),
        heard[0].answer().len() > 0,
        heard[1].ok(),
        heard[1].answer() == strings::decimal(count),
        count <= u64::MAX,
    ensures
        unpushed_step(git, path, head, heard) is Done,
        unpushed_step(git, path, head, heard)->value == (Unpushed::<Text>::Commits {
            count: count as u64,
        }),
        unpushed_step(git, path, head, heard)->problems.len() == 0,
{
    strings::law_a_written_number_reads_back(count, u64::MAX as nat);
}

/// That there is no remote is said exactly where git lists none, and a number
/// only where git printed one.
pub proof fn law_unpushed_is_what_was_answered(
    git: git::GitView,
    path: Text,
    head: Head<Text>,
    heard: Seq<ask::ReplyView>,
)
    requires
        unpushed_step(git, path, head, heard) is Done,
    ensures
        ({
            let born = head.oid() is Some && (head.oid()->0).len() > 0;
            let step = unpushed_step(git, path, head, heard);
            &&& step->value is NoRemote <==> born && heard[0].ok() && heard[0].answer().len() == 0
            &&& step->value is Commits ==> born && heard[0].ok() && heard[1].ok()
                && strings::unsigned_value(heard[1].answer(), u64::MAX as nat) == Ok::<
                nat,
                strings::NumberError,
            >(step->value->Commits_count as nat)
            &&& step->value is Unknown && born ==> step->problems.len() > 0
        }),
{
    if head.oid() is Some && (head.oid()->0).len() > 0 && !heard[0].ok() {
        git::law_trouble_is_told(git, path, "remote"@, heard[0]);
    }
}

} // verus!
