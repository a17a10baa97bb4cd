//! Whether the work has landed on the default branch.
//!
//! Two questions, asked in that order. `merge-base --is-ancestor` answers the
//! exact one: is this commit on the trunk. It is the wrong question for a squash
//! or a rebase merge, which rewrite the commit, so the second one looks for the
//! same patch under another id.

use vstd::prelude::*;

use crate::cache;
use crate::cache::Cache;
use crate::config::DEFAULT_BRANCH_CANDIDATES;
use crate::git;
use crate::git::ask;
use crate::git::ask::{Ask, PatchId, Reply, Step};
use crate::git::stages;
use crate::git::Git;
use crate::model::{Equivalence, Head, Landed, Text};
use crate::strings;

verus! {

// ---------------------------------------------------------------------------
// The default branch
// ---------------------------------------------------------------------------

/// The default branch: a name that resolves, and what it resolves to.
#[derive(Debug, PartialEq, Eq)]
pub struct Trunk<T = String> {
    pub name: T,
    pub oid: T,
}

impl View for Trunk {
    type V = Trunk<Text>;

    open spec fn view(&self) -> Trunk<Text> {
        Trunk { name: self.name@, oid: self.oid@ }
    }
}

#[derive(Debug, PartialEq, Eq)]
pub struct MaybeTrunk {
    pub value: Option<Trunk>,
}

impl View for MaybeTrunk {
    type V = Option<Trunk<Text>>;

    open spec fn view(&self) -> Option<Trunk<Text>> {
        strings::view_of(self.value)
    }
}

pub open spec fn pointed_args() -> Seq<Text> {
    seq!["symbolic-ref"@, "-q"@, "--short"@, "refs/remotes/origin/HEAD"@]
}

/// The names to try, in order: what the remote points at, where it points at
/// anything, then the usual ones.
pub open spec fn trunk_names(pointed: Text) -> Seq<Text> {
    let usual = strings::views(DEFAULT_BRANCH_CANDIDATES@);
    if pointed.len() > 0 {
        seq![pointed] + usual
    } else {
        usual
    }
}

/// The first of the names from `from` on that resolves. `heard` holds what each
/// of them resolved to, as far as it has been asked.
pub open spec fn seek(
    git: git::GitView,
    path: Text,
    names: Seq<Text>,
    heard: Seq<ask::ReplyView>,
    from: nat,
    problems: Seq<Text>,
) -> ask::StepView<Option<Trunk<Text>>>
    decreases names.len() - from,
{
    if from >= names.len() {
        ask::done(None, problems)
    } else if from >= heard.len() {
        ask::run(path, stages::resolve_args(names[from as int]))
    } else {
        let reply = heard[from as int];
        let problems = problems + git::trouble(git, path, "rev-parse"@, reply);
        if reply.ok() {
            ask::done(Some(Trunk { name: names[from as int], oid: reply.answer() }), problems)
        } else {
            seek(git, path, names, heard, from + 1, problems)
        }
    }
}

pub open spec fn trunk_step(
    git: git::GitView,
    path: Text,
    heard: Seq<ask::ReplyView>,
) -> ask::StepView<Option<Trunk<Text>>> {
    if heard.len() == 0 {
        ask::run(path, pointed_args())
    } else {
        seek(
            git,
            path,
            trunk_names(heard[0].answer()),
            heard.skip(1),
            0,
            git::trouble(git, path, "symbolic-ref"@, heard[0]),
        )
    }
}

fn names_to_try(pointed: String) -> (out: Vec<String>)
    ensures
        strings::views(out@) == trunk_names(pointed@),
{
    broadcast use strings::group_lists;

    let mut usual = strings::strings_of(DEFAULT_BRANCH_CANDIDATES.as_slice());
    if strings::is_empty(pointed.as_str()) {
        usual
    } else {
        let mut names: Vec<String> = Vec::new();
        names.push(pointed);
        names.append(&mut usual);
        assert(strings::views(names@) =~= trunk_names(pointed@));
        names
    }
}

/// The repository's default branch, as a name that resolves.
pub fn default_branch(git: &Git, path: &str, heard: &Vec<Reply>) -> (out: Step<MaybeTrunk>)
    ensures
        out@ == trunk_step(git@, path@, strings::views(heard@)),
{
    broadcast use strings::group_lists;

    let ghost all = strings::views(heard@);
    if heard.len() == 0 {
        let args = ["symbolic-ref", "-q", "--short", "refs/remotes/origin/HEAD"];
        assert(strings::views(args@) =~= pointed_args());
        return ask::ask_run(path, args.as_slice());
    }
    assert(all[0] == heard@[0]@);
    let mut problems = git::note_trouble(git, path, "symbolic-ref", &heard[0], Vec::new());
    let names = names_to_try(heard[0].answer());
    let ghost tried = strings::views(names@);
    let ghost rest = all.skip(1);
    for i in 0..names.len()
        invariant
            all == strings::views(heard@),
            heard@.len() > 0,
            rest == all.skip(1),
            tried == strings::views(names@),
            seek(git@, path@, tried, rest, i as nat, strings::views(problems@)) == trunk_step(
                git@,
                path@,
                all,
            ),
    {
        broadcast use strings::group_lists;

        assert(tried[i as int] == names@[i as int]@);
        if heard.len() - 1 <= i {
            return stages::ask_resolve(path, names[i].as_str());
        }
        assert(rest[i as int] == heard@[i + 1]@);
        problems = git::note_trouble(git, path, "rev-parse", &heard[i + 1], problems);
        if heard[i + 1].ok() {
            let trunk = Trunk { name: names[i].clone(), oid: heard[i + 1].answer() };
            return Step::Done { value: MaybeTrunk { value: Some(trunk) }, problems };
        }
    }
    Step::Done { value: MaybeTrunk { value: None }, problems }
}

// ---------------------------------------------------------------------------
// Patches
// ---------------------------------------------------------------------------

/// The diff options that both sides of a patch comparison are produced with.
/// `patch-id` hashes the diff it is handed, so each option that a reader's own
/// configuration could move is pinned.
pub const PATCH_ID_DIFF_OPTIONS: [&'static str; 5] = [
    "-U3",
    "--src-prefix=a/",
    "--dst-prefix=b/",
    "--no-renames",
    "--no-textconv",
];

/// A command that produces diffs, with the pinned options between the
/// subcommand and its own arguments.
pub open spec fn pinned(command: Seq<Text>) -> Seq<Text> {
    seq![command[0], "-p"@] + strings::views(PATCH_ID_DIFF_OPTIONS@) + command.skip(1)
}

/// Splices [`PATCH_ID_DIFF_OPTIONS`] into a diff-producing command.
pub fn diff_args(command: &[&str]) -> (out: Vec<String>)
    requires
        command@.len() > 0,
    ensures
        strings::views(out@) == pinned(strings::views(command@)),
{
    broadcast use strings::group_lists;

    let mut args: Vec<String> = Vec::new();
    args.push(command[0].to_string());
    args.push("-p".to_string());
    let mut options = strings::strings_of(PATCH_ID_DIFF_OPTIONS.as_slice());
    args.append(&mut options);
    let rest = vstd::slice::slice_subrange(command, 1, command.len());
    let mut rest = strings::strings_of(rest);
    assert(strings::views(rest@) =~= strings::views(command@).skip(1));
    args.append(&mut rest);
    assert(strings::views(args@) =~= pinned(strings::views(command@)));
    args
}

/// The first two words of a line, where it has two.
pub open spec fn word_pair(line: Text) -> Option<(Text, Text)> {
    let words = strings::words(line);
    if words.len() >= 2 {
        Some((words[0], words[1]))
    } else {
        None
    }
}

/// The patch ids in what `patch-id` printed: a patch and a commit on each line.
pub open spec fn id_pairs(lines: Seq<Text>) -> Seq<(Text, Text)>
    decreases lines.len(),
{
    if lines.len() == 0 {
        Seq::empty()
    } else {
        let before = id_pairs(lines.drop_last());
        match word_pair(lines.last()) {
            Some(pair) => before.push(pair),
            None => before,
        }
    }
}

/// What a patch comparison came to: the ids, or why there are none. A source
/// that dies part of the way leaves the sink exiting 0 over a truncated stream,
/// so both exit statuses count.
pub open spec fn patch_ids(
    git: git::GitView,
    dir: Text,
    name: Text,
    reply: ask::ReplyView,
) -> Result<Seq<(Text, Text)>, Text> {
    match reply {
        ask::ReplyView::Piped { source, sink } => if !source.succeeded() {
            Err(
                "git "@ + name + " exited "@ + ask::exit_text(source.code) + ": "@
                    + strings::trimmed(strings::lossy_text(source.stderr)),
            )
        } else if !sink.succeeded() {
            Err(
                "git patch-id exited "@ + ask::exit_text(sink.code) + ": "@ + strings::trimmed(
                    strings::lossy_text(sink.stderr),
                ),
            )
        } else {
            Ok(id_pairs(strings::lines(strings::lossy_text(sink.stdout))))
        },
        ask::ReplyView::TimedOut => Err(
            "git "@ + name + " | git patch-id timed out after "@ + ask::span_text(
                git.timeout as nat,
            ),
        ),
        ask::ReplyView::PipeNotStarted { first, error } => Err(
            "could not run git "@ + (if first {
                name
            } else {
                "patch-id"@
            }) + " in "@ + dir + ": "@ + error,
        ),
        ask::ReplyView::PipeNotAwaited { first, error } => Err(
            "waiting for git "@ + (if first {
                name
            } else {
                "patch-id"@
            }) + " in "@ + dir + ": "@ + error,
        ),
        _ => Err("git "@ + name + " could not be run"@),
    }
}

/// Whether a result holds what this outcome says.
pub open spec fn ids_are(
    found: Result<Vec<PatchId>, String>,
    expected: Result<Seq<(Text, Text)>, Text>,
) -> bool {
    match found {
        Ok(ids) => expected == Ok::<Seq<(Text, Text)>, Text>(strings::views(ids@)),
        Err(reason) => expected == Err::<Seq<(Text, Text)>, Text>(reason@),
    }
}

fn read_ids(text: &str) -> (out: Vec<PatchId>)
    ensures
        strings::views(out@) == id_pairs(strings::lines(text@)),
{
    broadcast use strings::group_lists;

    let lines = strings::split_lines(text);
    let ghost all = strings::views(lines@);
    let mut out: Vec<PatchId> = Vec::new();
    for i in 0..lines.len()
        invariant
            all == strings::views(lines@),
            strings::views(out@) == id_pairs(all.take(i as int)),
    {
        broadcast use strings::group_lists;

        assert(all.take(i + 1).drop_last() =~= all.take(i as int));
        assert(all[i as int] == lines@[i as int]@);
        let words = strings::split_words(lines[i].as_str());
        assert(strings::views(words@).len() == words@.len());
        if words.len() >= 2 {
            assert(strings::views(words@)[0] == words@[0]@);
            assert(strings::views(words@)[1] == words@[1]@);
            out.push((words[0].clone(), words[1].clone()));
        }
    }
    assert(all.take(all.len() as int) =~= all);
    out
}

fn read_patch_ids(
    git: &Git,
    dir: &str,
    name: &str,
    reply: &Reply,
) -> (out: Result<Vec<PatchId>, String>)
    ensures
        ids_are(out, patch_ids(git@, dir@, name@, reply@)),
{
    match reply {
        Reply::Piped { source, sink } => if !source.ok() {
            let start = strings::cat4(
                "git ",
                name,
                " exited ",
                ask::exit_label(source.code).as_str(),
            );
            let error = strings::trim(strings::lossy(source.stderr.as_slice()).as_str());
            Err(strings::cat3(start.as_str(), ": ", error.as_str()))
        } else if !sink.ok() {
            let error = strings::trim(strings::lossy(sink.stderr.as_slice()).as_str());
            Err(
                strings::cat4(
                    "git patch-id exited ",
                    ask::exit_label(sink.code).as_str(),
                    ": ",
                    error.as_str(),
                ),
            )
        } else {
            Ok(read_ids(strings::lossy(sink.stdout.as_slice()).as_str()))
        },
        Reply::TimedOut => Err(
            strings::cat4(
                "git ",
                name,
                " | git patch-id timed out after ",
                ask::span(git.timeout()).as_str(),
            ),
        ),
        Reply::PipeNotStarted { first, error } => {
            let which = if *first {
                name
            } else {
                "patch-id"
            };
            let start = strings::cat4("could not run git ", which, " in ", dir);
            Err(strings::cat3(start.as_str(), ": ", error.as_str()))
        },
        Reply::PipeNotAwaited { first, error } => {
            let which = if *first {
                name
            } else {
                "patch-id"
            };
            let start = strings::cat4("waiting for git ", which, " in ", dir);
            Err(strings::cat3(start.as_str(), ": ", error.as_str()))
        },
        _ => Err(strings::cat3("git ", name, " could not be run")),
    }
}

/// The commit that carries a patch.
pub open spec fn carrier(ids: Seq<(Text, Text)>, wanted: Text) -> Option<Text>
    decreases ids.len(),
{
    if ids.len() == 0 {
        None
    } else if ids[0].0 == wanted {
        Some(ids[0].1)
    } else {
        carrier(ids.drop_first(), wanted)
    }
}

fn find_carrier(ids: &Vec<PatchId>, wanted: &str) -> (out: Option<String>)
    ensures
        strings::view_of(out) == carrier(strings::views(ids@), wanted@),
{
    let ghost all = strings::views(ids@);
    assert(all.skip(0) =~= all);
    for i in 0..ids.len()
        invariant
            all == strings::views(ids@),
            carrier(all.skip(i as int), wanted@) == carrier(all, wanted@),
    {
        let ghost rest = all.skip(i as int);
        assert(rest[0] == ids@[i as int]@);
        assert(rest.drop_first() =~= all.skip(i + 1));
        if strings::same(ids[i].0.as_str(), wanted) {
            return Some(ids[i].1.clone());
        }
    }
    None
}

// ---------------------------------------------------------------------------
// The commits one by one
// ---------------------------------------------------------------------------

/// How many lines are not blank, and whether all of those begin with a dash.
pub open spec fn cherry_marks(lines: Seq<Text>) -> (nat, bool)
    decreases lines.len(),
{
    if lines.len() == 0 {
        (0, true)
    } else {
        let before = cherry_marks(lines.drop_last());
        if strings::trimmed(lines.last()).len() == 0 {
            before
        } else {
            (before.0 + 1, before.1 && strings::begins(lines.last(), "-"@))
        }
    }
}

fn read_cherry(text: &str) -> (out: (usize, bool))
    ensures
        (out.0 as nat, out.1) == cherry_marks(strings::lines(text@)),
{
    broadcast use strings::group_lists;

    let lines = strings::split_lines(text);
    let ghost all = strings::views(lines@);
    let mut commits: usize = 0;
    let mut every = true;
    for i in 0..lines.len()
        invariant
            all == strings::views(lines@),
            (commits as nat, every) == cherry_marks(all.take(i as int)),
            commits <= i,
    {
        broadcast use strings::group_lists;

        assert(all.take(i + 1).drop_last() =~= all.take(i as int));
        assert(all[i as int] == lines@[i as int]@);
        let line = lines[i].as_str();
        if !strings::is_empty(strings::trim(line).as_str()) {
            commits = commits + 1;
            every = every && strings::starts_with(line, "-");
        }
    }
    assert(all.take(all.len() as int) =~= all);
    (commits, every)
}

// ---------------------------------------------------------------------------
// The same work under another id
// ---------------------------------------------------------------------------

/// What was found, whether the question could be asked, and the trunk range
/// that was computed on the way.
#[derive(Debug, PartialEq, Eq)]
pub struct Twin {
    pub found: Result<Option<Equivalence>, String>,
    pub range: Option<(String, Vec<PatchId>)>,
}

#[verifier::ext_equal]
pub struct TwinView {
    pub found: Result<Option<Equivalence<Text>>, Text>,
    pub range: Option<(Text, Seq<(Text, Text)>)>,
}

impl View for Twin {
    type V = TwinView;

    open spec fn view(&self) -> TwinView {
        TwinView {
            found: match self.found {
                Ok(found) => Ok(strings::view_of(found)),
                Err(reason) => Err(reason@),
            },
            range: match self.range {
                Some((key, ids)) => Some((key@, strings::views(ids@))),
                None => None,
            },
        }
    }
}

pub open spec fn no_twin() -> TwinView {
    TwinView { found: Ok(None), range: None }
}

pub open spec fn twin_fault(reason: Text) -> TwinView {
    TwinView { found: Err(reason), range: None }
}

/// Why a command whose exit status is no answer gave none.
pub open spec fn probe_fault(name: Text, reply: ask::ReplyView) -> Text {
    match reply.output() {
        Some(out) => "git "@ + name + " exited "@ + ask::exit_text(out.code) + ": "@
            + out.complaint(),
        None => "git "@ + name + " could not be run"@,
    }
}

pub open spec fn base_args(oid: Text, trunk: Text) -> Seq<Text> {
    seq!["merge-base"@, oid, trunk]
}

pub open spec fn cherry_args(oid: Text, trunk: Text) -> Seq<Text> {
    seq!["cherry"@, trunk, oid]
}

pub open spec fn branch_diff_args(base: Text, oid: Text) -> Seq<Text> {
    pinned(seq!["diff-tree"@, base, oid])
}

pub open spec fn trunk_diff_args(base: Text, trunk: Text) -> Seq<Text> {
    pinned(seq!["log"@, "--no-merges"@, "--format=commit %H"@, base + ".."@ + trunk])
}

/// A squash merge collapses the branch into one commit. What survives is the
/// patch of the branch's whole diff against the fork point: `wanted`.
pub open spec fn squash_verdict(wanted: Text, ids: Seq<(Text, Text)>) -> Option<Equivalence<Text>> {
    match carrier(ids, wanted) {
        Some(oid) => Some(Equivalence::Squashed { oid }),
        None => None,
    }
}

/// The search through the trunk range, with the answers from its memory on.
pub open spec fn range_search(
    git: git::GitView,
    path: Text,
    base: Text,
    trunk: Trunk<Text>,
    wanted: Text,
    heard: Seq<ask::ReplyView>,
    problems: Seq<Text>,
) -> ask::StepView<TwinView> {
    let key = cache::range_key_text(base, trunk.oid);
    if heard.len() == 0 {
        ask::StepView::Ask(ask::AskView::RecallRange { key })
    } else {
        match heard[0] {
            ask::ReplyView::Range(Some(ids)) => ask::done(
                TwinView { found: Ok(squash_verdict(wanted, ids)), range: None },
                problems,
            ),
            _ => if heard.len() == 1 {
                ask::StepView::Ask(
                    ask::AskView::PatchIds { dir: path, args: trunk_diff_args(base, trunk.name) },
                )
            } else {
                match patch_ids(git, path, "log"@, heard[1]) {
                    Err(reason) => ask::done(twin_fault(reason), problems),
                    Ok(ids) => ask::done(
                        TwinView {
                            found: Ok(squash_verdict(wanted, ids)),
                            range: Some((key, ids)),
                        },
                        problems,
                    ),
                }
            },
        }
    }
}

/// Looks for this branch's work on the trunk under a different id, from the
/// fork point of the two: first commit by commit, then as one squashed commit.
/// Histories with no fork point have nothing the work could have landed into.
pub open spec fn twin_step(
    git: git::GitView,
    path: Text,
    oid: Text,
    trunk: Trunk<Text>,
    heard: Seq<ask::ReplyView>,
) -> ask::StepView<TwinView> {
    let first = git::trouble(git, path, "merge-base"@, heard[0]);
    let base = heard[0].answer();
    let second = first + git::trouble(git, path, "cherry"@, heard[1]);
    let marks = cherry_marks(strings::lines(heard[1].answer()));
    if heard.len() == 0 {
        ask::run(path, base_args(oid, trunk.name))
    } else if !heard[0].ok() {
        match heard[0].output() {
            Some(out) => if out.code == Some(1i32) {
                ask::done(no_twin(), first)
            } else {
                ask::done(twin_fault(probe_fault("merge-base"@, heard[0])), first)
            },
            None => ask::done(twin_fault(probe_fault("merge-base"@, heard[0])), first),
        }
    } else if base.len() == 0 {
        ask::done(no_twin(), first)
    } else if heard.len() == 1 {
        ask::run(path, cherry_args(oid, trunk.name))
    } else if !heard[1].ok() {
        ask::done(twin_fault(probe_fault("cherry"@, heard[1])), second)
    } else if marks.0 > 0 && marks.1 {
        ask::done(
            TwinView {
                found: Ok(Some(Equivalence::EveryCommit { commits: marks.0 as u64 })),
                range: None,
            },
            second,
        )
    } else if heard.len() == 2 {
        ask::StepView::Ask(ask::AskView::PatchIds { dir: path, args: branch_diff_args(base, oid) })
    } else {
        match patch_ids(git, path, "diff-tree"@, heard[2]) {
            Err(reason) => ask::done(twin_fault(reason), second),
            Ok(ids) => if ids.len() == 0 {
                ask::done(no_twin(), second)
            } else {
                range_search(git, path, base, trunk, ids[0].0, heard.skip(3), second)
            },
        }
    }
}

fn explain_probe(name: &str, reply: &Reply) -> (out: String)
    ensures
        out@ == probe_fault(name@, reply@),
{
    match reply {
        Reply::Ran(out) => {
            let start = strings::cat4("git ", name, " exited ", ask::exit_label(out.code).as_str());
            strings::cat3(start.as_str(), ": ", out.stderr_text().as_str())
        },
        _ => strings::cat3("git ", name, " could not be run"),
    }
}

fn squashed(ids: &Vec<PatchId>, wanted: &str) -> (out: Option<Equivalence>)
    ensures
        strings::view_of(out) == squash_verdict(wanted@, strings::views(ids@)),
{
    match find_carrier(ids, wanted) {
        Some(oid) => Some(Equivalence::Squashed { oid }),
        None => None,
    }
}

fn search_range(
    git: &Git,
    path: &str,
    base: &str,
    trunk: &Trunk,
    wanted: &str,
    heard: &[Reply],
    problems: Vec<String>,
) -> (out: Step<Twin>)
    requires
        heard@.len() >= 3,
    ensures
        out@ == range_search(
            git@,
            path@,
            base@,
            trunk@,
            wanted@,
            strings::views(heard@).skip(3),
            strings::views(problems@),
        ),
{
    let ghost rest = strings::views(heard@).skip(3);
    let key = Cache::range_key(base, trunk.oid.as_str());
    if heard.len() == 3 {
        return Step::Ask(Ask::RecallRange { key });
    }
    assert(rest[0] == heard@[3]@);
    match &heard[3] {
        Reply::Range(Some(ids)) => {
            let found = Ok(squashed(ids, wanted));
            return Step::Done { value: Twin { found, range: None }, problems };
        },
        _ => {},
    }
    if heard.len() == 4 {
        let range = strings::cat3(base, "..", trunk.name.as_str());
        let command = ["log", "--no-merges", "--format=commit %H", range.as_str()];
        assert(strings::views(command@) =~= seq![
            "log"@,
            "--no-merges"@,
            "--format=commit %H"@,
            base@ + ".."@ + trunk@.name,
        ]);
        return Step::Ask(
            Ask::PatchIds { dir: path.to_string(), args: diff_args(command.as_slice()) },
        );
    }
    assert(rest[1] == heard@[4]@);
    match read_patch_ids(git, path, "log", &heard[4]) {
        Err(reason) => Step::Done { value: Twin { found: Err(reason), range: None }, problems },
        Ok(ids) => {
            let found = Ok(squashed(&ids, wanted));
            Step::Done { value: Twin { found, range: Some((key, ids)) }, problems }
        },
    }
}

fn no_match(problems: Vec<String>) -> (out: Step<Twin>)
    ensures
        out@ == ask::done(no_twin(), strings::views(problems@)),
{
    Step::Done { value: Twin { found: Ok(None), range: None }, problems }
}

fn faulty(reason: String, problems: Vec<String>) -> (out: Step<Twin>)
    ensures
        out@ == ask::done(twin_fault(reason@), strings::views(problems@)),
{
    Step::Done { value: Twin { found: Err(reason), range: None }, problems }
}

/// Looks for this branch's work on the trunk under a different id. Neither
/// probe is proof, since two commits with the same diff have the same patch id,
/// so what it finds is never reported as merged.
pub fn equivalent_patch(
    git: &Git,
    path: &str,
    oid: &str,
    trunk: &Trunk,
    heard: &[Reply],
) -> (out: Step<Twin>)
    ensures
        out@ == twin_step(git@, path@, oid@, trunk@, strings::views(heard@)),
{
    broadcast use strings::group_lists;

    let ghost all = strings::views(heard@);
    if heard.len() == 0 {
        let args = ["merge-base", oid, trunk.name.as_str()];
        assert(strings::views(args@) =~= base_args(oid@, trunk@.name));
        return ask::ask_run(path, args.as_slice());
    }
    assert(all[0] == heard@[0]@);
    let problems = git::note_trouble(git, path, "merge-base", &heard[0], Vec::new());
    if !heard[0].ok() {
        match &heard[0] {
            Reply::Ran(out) => {
                if let Some(code) = out.code {
                    if code == 1 {
                        return no_match(problems);
                    }
                }
            },
            _ => {},
        }
        return faulty(explain_probe("merge-base", &heard[0]), problems);
    }
    let base = heard[0].answer();
    if strings::is_empty(base.as_str()) {
        return no_match(problems);
    }
    if heard.len() == 1 {
        let args = ["cherry", trunk.name.as_str(), oid];
        assert(strings::views(args@) =~= cherry_args(oid@, trunk@.name));
        return ask::ask_run(path, args.as_slice());
    }
    assert(all[1] == heard@[1]@);
    let problems = git::note_trouble(git, path, "cherry", &heard[1], problems);
    if !heard[1].ok() {
        return faulty(explain_probe("cherry", &heard[1]), problems);
    }
    let (commits, every) = read_cherry(heard[1].answer().as_str());
    if commits > 0 && every {
        let found = Ok(Some(Equivalence::EveryCommit { commits: commits as u64 }));
        return Step::Done { value: Twin { found, range: None }, problems };
    }
    if heard.len() == 2 {
        let command = ["diff-tree", base.as_str(), oid];
        assert(strings::views(command@) =~= seq!["diff-tree"@, base@, oid@]);
        return Step::Ask(
            Ask::PatchIds { dir: path.to_string(), args: diff_args(command.as_slice()) },
        );
    }
    assert(all[2] == heard@[2]@);
    match read_patch_ids(git, path, "diff-tree", &heard[2]) {
        Err(reason) => faulty(reason, problems),
        Ok(ids) => {
            assert(strings::views(ids@).len() == ids@.len());
            if ids.len() == 0 {
                return no_match(problems);
            }
            assert(strings::views(ids@)[0] == ids@[0]@);
            search_range(git, path, base.as_str(), trunk, ids[0].0.as_str(), heard, problems)
        },
    }
}

// ---------------------------------------------------------------------------
// The verdict
// ---------------------------------------------------------------------------

/// Whether the work landed, and what is worth remembering of finding out: the
/// key under which to keep the verdict, and the trunk range.
#[derive(Debug, PartialEq, Eq)]
pub struct Landing {
    pub landed: Landed,
    pub key: Option<String>,
    pub range: Option<(String, Vec<PatchId>)>,
}

#[verifier::ext_equal]
pub struct LandingView {
    pub landed: Landed<Text>,
    pub key: Option<Text>,
    pub range: Option<(Text, Seq<(Text, Text)>)>,
}

impl View for Landing {
    type V = LandingView;

    open spec fn view(&self) -> LandingView {
        LandingView {
            landed: self.landed@,
            key: strings::view_of(self.key),
            range: match self.range {
                Some((key, ids)) => Some((key@, strings::views(ids@))),
                None => None,
            },
        }
    }
}

pub open spec fn plainly(landed: Landed<Text>) -> LandingView {
    LandingView { landed, key: None, range: None }
}

/// Whether the checkout is on the trunk itself. `origin/main` and the local
/// `main` are the same trunk for this question.
pub open spec fn on_trunk(head: Head<Text>, trunk: Text) -> bool {
    match head.branch_name() {
        Some(branch) => branch == trunk || strings::stripped(trunk, "origin/"@) == Some(branch),
        None => false,
    }
}

pub open spec fn ancestor_args(oid: Text, trunk: Text) -> Seq<Text> {
    seq!["merge-base"@, "--is-ancestor"@, oid, trunk]
}

pub open spec fn unruled_text(trunk: Text, reason: Text) -> Text {
    "HEAD is not on "@ + trunk + " by sha, and "@ + reason
        + ", so a squash or rebase merge cannot be ruled out"@
}

/// The verdict on work that is not on the trunk by sha. An answer that could not
/// be had is not remembered.
pub open spec fn twin_verdict(trunk: Trunk<Text>, oid: Text, twin: TwinView) -> LandingView {
    let key = cache::answer_key_text(oid, trunk.name, trunk.oid);
    match twin.found {
        Ok(Some(how)) => LandingView {
            landed: Landed::Equivalent { into: trunk.name, how },
            key: Some(key),
            range: twin.range,
        },
        Ok(None) => LandingView {
            landed: Landed::NotMerged { into: trunk.name },
            key: Some(key),
            range: twin.range,
        },
        Err(reason) => LandingView {
            landed: Landed::Unknown { reason: unruled_text(trunk.name, reason) },
            key: None,
            range: twin.range,
        },
    }
}

pub open spec fn landed_step(
    git: git::GitView,
    path: Text,
    head: Head<Text>,
    trunk: Option<Trunk<Text>>,
    heard: Seq<ask::ReplyView>,
) -> ask::StepView<LandingView> {
    match trunk {
        None => ask::done(
            plainly(
                Landed::Unknown {
                    reason:
                        "no default branch found: no refs/remotes/origin/HEAD, and none of the usual names resolve"@,
                },
            ),
            Seq::empty(),
        ),
        Some(trunk) => {
            let first = git::trouble(git, path, "merge-base"@, heard[0]);
            if on_trunk(head, trunk.name) {
                ask::done(plainly(Landed::IsDefault { name: trunk.name }), Seq::empty())
            } else if head.oid() is None || (head.oid()->0).len() == 0 {
                ask::done(
                    plainly(
                        Landed::Unknown {
                            reason: "HEAD has no commit, so nothing can have landed on "@
                                + trunk.name,
                        },
                    ),
                    Seq::empty(),
                )
            } else if heard.len() == 0 {
                ask::run(path, ancestor_args(head.oid()->0, trunk.name))
            } else {
                let oid = head.oid()->0;
                match heard[0].output() {
                    None => ask::done(
                        plainly(
                            Landed::Unknown {
                                reason: "could not compare HEAD with "@ + trunk.name,
                            },
                        ),
                        first,
                    ),
                    Some(out) => if out.code == Some(0i32) {
                        ask::done(plainly(Landed::Merged { into: trunk.name }), first)
                    } else if out.code == Some(1i32) {
                        if heard.len() == 1 {
                            ask::StepView::Ask(
                                ask::AskView::RecallAnswer {
                                    key: cache::answer_key_text(oid, trunk.name, trunk.oid),
                                },
                            )
                        } else {
                            match heard[1] {
                                ask::ReplyView::Answer(Some(landed)) => ask::done(
                                    plainly(landed),
                                    first,
                                ),
                                _ => match twin_step(git, path, oid, trunk, heard.skip(2)) {
                                    ask::StepView::Ask(ask) => ask::StepView::Ask(ask),
                                    ask::StepView::Done { value, problems } => ask::done(
                                        twin_verdict(trunk, oid, value),
                                        first + problems,
                                    ),
                                },
                            }
                        }
                    } else {
                        ask::done(
                            plainly(
                                Landed::Unknown {
                                    reason: "git merge-base --is-ancestor exited "@
                                        + ask::exit_text(out.code) + " against "@ + trunk.name
                                        + ": "@ + out.complaint(),
                                },
                            ),
                            first,
                        )
                    },
                }
            }
        },
    }
}

fn plain(landed: Landed, problems: Vec<String>) -> (out: Step<Landing>)
    ensures
        out@ == ask::done(plainly(landed@), strings::views(problems@)),
{
    Step::Done { value: Landing { landed, key: None, range: None }, problems }
}

fn is_on_trunk(head: &Head, trunk: &str) -> (answer: bool)
    ensures
        answer == on_trunk(head@, trunk@),
{
    match head.branch_name() {
        Some(branch) => {
            if strings::same(branch, trunk) {
                return true;
            }
            match strings::strip_prefix(trunk, "origin/") {
                Some(short) => strings::same(short.as_str(), branch),
                None => false,
            }
        },
        None => false,
    }
}

fn judge_twin(trunk: &Trunk, oid: &str, twin: Twin) -> (out: Landing)
    ensures
        out@ == twin_verdict(trunk@, oid@, twin@),
{
    let key = Cache::answer_key(oid, trunk.name.as_str(), trunk.oid.as_str());
    match twin.found {
        Ok(Some(how)) => Landing {
            landed: Landed::Equivalent { into: trunk.name.clone(), how },
            key: Some(key),
            range: twin.range,
        },
        Ok(None) => Landing {
            landed: Landed::NotMerged { into: trunk.name.clone() },
            key: Some(key),
            range: twin.range,
        },
        Err(reason) => {
            let reason = strings::cat5(
                "HEAD is not on ",
                trunk.name.as_str(),
                " by sha, and ",
                reason.as_str(),
                ", so a squash or rebase merge cannot be ruled out",
            );
            Landing { landed: Landed::Unknown { reason }, key: None, range: twin.range }
        },
    }
}

/// Whether the work has landed on the default branch.
///
/// Never a bare "not merged" where the question could not be asked: "we could
/// not find a default branch" and "this did not land" are opposite messages.
pub fn landed(
    git: &Git,
    path: &str,
    head: &Head,
    trunk: &Option<Trunk>,
    heard: &Vec<Reply>,
) -> (out: Step<Landing>)
    ensures
        out@ == landed_step(
            git@,
            path@,
            head@,
            strings::view_of(*trunk),
            strings::views(heard@),
        ),
{
    broadcast use strings::group_lists;

    let ghost all = strings::views(heard@);
    let problems: Vec<String> = Vec::new();
    let trunk = match trunk {
        None => {
            let reason =
                "no default branch found: no refs/remotes/origin/HEAD, and none of the usual names resolve".to_string();
            return plain(Landed::Unknown { reason }, problems);
        },
        Some(trunk) => trunk,
    };
    if is_on_trunk(head, trunk.name.as_str()) {
        return plain(Landed::IsDefault { name: trunk.name.clone() }, problems);
    }
    let oid = match head.oid() {
        Some(oid) => oid,
        None => "",
    };
    proof {
        reveal_strlit("");
    }
    if strings::is_empty(oid) {
        let reason = strings::cat2(
            "HEAD has no commit, so nothing can have landed on ",
            trunk.name.as_str(),
        );
        return plain(Landed::Unknown { reason }, problems);
    }
    if heard.len() == 0 {
        let args = ["merge-base", "--is-ancestor", oid, trunk.name.as_str()];
        assert(strings::views(args@) =~= ancestor_args(oid@, trunk@.name));
        return ask::ask_run(path, args.as_slice());
    }
    assert(all[0] == heard@[0]@);
    let mut problems = git::note_trouble(git, path, "merge-base", &heard[0], problems);
    let out = match &heard[0] {
        Reply::Ran(out) => out,
        _ => {
            let reason = strings::cat2("could not compare HEAD with ", trunk.name.as_str());
            return plain(Landed::Unknown { reason }, problems);
        },
    };
    if out.ok() {
        return plain(Landed::Merged { into: trunk.name.clone() }, problems);
    }
    let absent = match out.code {
        Some(code) => code == 1,
        None => false,
    };
    if !absent {
        let start = strings::cat4(
            "git merge-base --is-ancestor exited ",
            ask::exit_label(out.code).as_str(),
            " against ",
            trunk.name.as_str(),
        );
        let reason = strings::cat3(start.as_str(), ": ", out.stderr_text().as_str());
        return plain(Landed::Unknown { reason }, problems);
    }
    if heard.len() == 1 {
        let key = Cache::answer_key(oid, trunk.name.as_str(), trunk.oid.as_str());
        return Step::Ask(Ask::RecallAnswer { key });
    }
    assert(all[1] == heard@[1]@);
    match &heard[1] {
        Reply::Answer(Some(landed)) => {
            return plain(landed.clone(), problems);
        },
        _ => {},
    }
    let rest = vstd::slice::slice_subrange(heard.as_slice(), 2, heard.len());
    assert(strings::views(rest@) =~= all.skip(2));
    match equivalent_patch(git, path, oid, trunk, rest) {
        Step::Ask(ask) => Step::Ask(ask),
        Step::Done { value, problems: more } => {
            let mut more = more;
            problems.append(&mut more);
            Step::Done { value: judge_twin(trunk, oid, value), problems }
        },
    }
}

// ---------------------------------------------------------------------------
// Laws
// ---------------------------------------------------------------------------

/// "Not merged" is a verdict, never a failure: it comes only where the probes
/// were asked and answered, or were remembered.
pub proof fn law_not_merged_is_never_a_guess(
    git: git::GitView,
    path: Text,
    head: Head<Text>,
    trunk: Option<Trunk<Text>>,
    heard: Seq<ask::ReplyView>,
)
    requires
        landed_step(git, path, head, trunk, heard) is Done,
        landed_step(git, path, head, trunk, heard)->value.landed is NotMerged,
    ensures
        trunk is Some,
        heard.len() >= 2,
        heard[0].output() is Some,
        heard[1] is Answer && heard[1]->Answer_0 is Some || ({
            let twin = twin_step(git, path, head.oid()->0, trunk->0, heard.skip(2));
            twin is Done && twin->value.found == Ok::<Option<Equivalence<Text>>, Text>(None)
        }),
{
}

/// A match by patch is never reported as containment: "merged" comes only from
/// the ancestry test, or from memory.
pub proof fn law_merged_is_containment(
    git: git::GitView,
    path: Text,
    head: Head<Text>,
    trunk: Option<Trunk<Text>>,
    heard: Seq<ask::ReplyView>,
)
    requires
        landed_step(git, path, head, trunk, heard) is Done,
        landed_step(git, path, head, trunk, heard)->value.landed is Merged,
    ensures
        heard.len() > 0,
        heard[0].ok() || (heard.len() >= 2 && heard[1] is Answer && heard[1]->Answer_0 is Some),
{
}

/// A hit and a miss agree. A verdict found the long way is kept under the key
/// that was asked for, and a second look that finds it there comes to the same
/// verdict without another question.
pub proof fn law_a_hit_and_a_miss_agree(
    git: git::GitView,
    path: Text,
    head: Head<Text>,
    trunk: Option<Trunk<Text>>,
    heard: Seq<ask::ReplyView>,
    memory: cache::CacheView,
)
    requires
        landed_step(git, path, head, trunk, heard) is Done,
        landed_step(git, path, head, trunk, heard)->value.key is Some,
    ensures
        ({
            let found = landed_step(git, path, head, trunk, heard)->value;
            let key = found.key->0;
            let recalled = cache::recalled(memory.with_answer(key, found.landed).answers, key);
            let again = landed_step(
                git,
                path,
                head,
                trunk,
                seq![heard[0], ask::ReplyView::Answer(recalled)],
            );
            &&& landed_step(git, path, head, trunk, seq![heard[0]]) == ask::StepView::<
                LandingView,
            >::Ask(ask::AskView::RecallAnswer { key })
            &&& again is Done
            &&& again->value.landed == found.landed
        }),
{
    let found = landed_step(git, path, head, trunk, heard)->value;
    cache::law_an_answer_is_given_back(memory, found.key->0, found.landed, found.key->0);
}

/// The same for the trunk range: one that is kept and found again comes to the
/// same match.
pub proof fn law_a_remembered_range_finds_the_same(
    git: git::GitView,
    path: Text,
    oid: Text,
    trunk: Trunk<Text>,
    heard: Seq<ask::ReplyView>,
    memory: cache::CacheView,
)
    requires
        twin_step(git, path, oid, trunk, heard) is Done,
        twin_step(git, path, oid, trunk, heard)->value.range is Some,
        (twin_step(git, path, oid, trunk, heard)->value.range->0).1.len()
            <= cache::MAX_IDS_PER_RANGE,
    ensures
        ({
            let found = twin_step(git, path, oid, trunk, heard)->value;
            let (key, ids) = found.range->0;
            let recalled = cache::recalled(memory.with_range(key, ids).ranges, key);
            let asked = heard.take(3);
            let again = twin_step(
                git,
                path,
                oid,
                trunk,
                asked.push(ask::ReplyView::Range(recalled)),
            );
            &&& twin_step(git, path, oid, trunk, asked) == ask::StepView::<TwinView>::Ask(
                ask::AskView::RecallRange { key },
            )
            &&& again is Done
            &&& again->value.found == found.found
        }),
{
    let found = twin_step(git, path, oid, trunk, heard)->value;
    let (key, ids) = found.range->0;
    let recalled = cache::recalled(memory.with_range(key, ids).ranges, key);
    cache::law_a_range_is_given_back(memory, key, ids, key);
    let asked = heard.take(3);
    let more = asked.push(ask::ReplyView::Range(recalled));
    assert(heard.len() >= 5);
    assert(asked.skip(3) =~= Seq::empty());
    assert(more.skip(3) =~= seq![ask::ReplyView::Range(recalled)]);
}

/// Whether a line of `git cherry` is about a commit.
pub open spec fn about_a_commit(line: Text) -> bool {
    !strings::blank(line)
}

proof fn lemma_cherry_marks(lines: Seq<Text>)
    ensures
        cherry_marks(lines).0 == lines.filter(|line: Text| about_a_commit(line)).len(),
        cherry_marks(lines).1 <==> forall|i: int|
            0 <= i < lines.len() && about_a_commit(#[trigger] lines[i]) ==> lines[i][0] == '-',
    decreases lines.len(),
{
    reveal(Seq::filter);
    if lines.len() > 0 {
        let rest = lines.drop_last();
        let last = lines.last();
        lemma_cherry_marks(rest);
        strings::law_trimming_takes_white_space_off_the_ends(last);
        reveal_strlit("-");
        if about_a_commit(last) {
            assert(last.len() > 0);
            assert(strings::begins(last, "-"@) <==> last[0] == '-') by {
                if last[0] == '-' {
                    assert(last.take(1) =~= "-"@);
                }
                if strings::begins(last, "-"@) {
                    assert(last.take(1)[0] == last[0]);
                }
            }
        }
        assert forall|i: int| 0 <= i < rest.len() implies #[trigger] rest[i] == lines[i] by {}
        if cherry_marks(lines).1 {
            assert forall|i: int|
                0 <= i < lines.len() && about_a_commit(#[trigger] lines[i]) implies lines[i][0]
                == '-' by {
                if i < rest.len() {
                    assert(about_a_commit(rest[i]));
                }
            }
        } else if cherry_marks(rest).1 {
            assert(about_a_commit(lines[lines.len() - 1]));
        } else {
            let i = choose|i: int|
                0 <= i < rest.len() && about_a_commit(#[trigger] rest[i]) && rest[i][0] != '-';
            assert(about_a_commit(lines[i]));
        }
    }
}

/// "Every commit is on the trunk by patch" is said exactly where `git cherry`
/// marks every commit of the branch with a dash, and there is one to mark; with
/// it goes the number of commits. One that is marked otherwise rules it out.
pub proof fn law_every_commit_means_every_one(
    git: git::GitView,
    path: Text,
    oid: Text,
    trunk: Trunk<Text>,
    heard: Seq<ask::ReplyView>,
    n: u64,
)
    requires
        heard.len() >= 2,
        heard[0].ok(),
        heard[0].answer().len() > 0,
        heard[1].ok(),
        strings::lines(heard[1].answer()).len() <= u64::MAX,
    ensures
        ({
            let step = twin_step(git, path, oid, trunk, heard);
            let lines = strings::lines(heard[1].answer());
            let commits = lines.filter(|line: Text| about_a_commit(line));
            step is Done && step->value.found == Ok::<Option<Equivalence<Text>>, Text>(
                Some(Equivalence::EveryCommit { commits: n }),
            ) <==> {
                &&& n == commits.len() && n > 0
                &&& forall|i: int|
                    0 <= i < lines.len() && about_a_commit(#[trigger] lines[i]) ==> lines[i][0]
                        == '-'
            }
        }),
{
    let lines = strings::lines(heard[1].answer());
    lemma_cherry_marks(lines);
    lemma_filtered(lines, |line: Text| about_a_commit(line));
    law_a_squash_is_a_commit_with_the_whole_patch(git, path, oid, trunk, heard);
}

proof fn lemma_filtered(items: Seq<Text>, pred: spec_fn(Text) -> bool)
    ensures
        items.filter(pred).len() <= items.len(),
    decreases items.len(),
{
    reveal(Seq::filter);
    if items.len() > 0 {
        lemma_filtered(items.drop_last(), pred);
    }
}

/// The commit that carries a patch is the first of the list that does, and there
/// is none exactly where no commit of the list does.
pub proof fn law_a_carrier_carries_the_patch(ids: Seq<(Text, Text)>, wanted: Text)
    ensures
        match carrier(ids, wanted) {
            Some(oid) => exists|k: int|
                0 <= k < ids.len() && #[trigger] ids[k] == (wanted, oid) && forall|j: int|
                    0 <= j < k ==> (#[trigger] ids[j]).0 != wanted,
            None => forall|k: int| 0 <= k < ids.len() ==> (#[trigger] ids[k]).0 != wanted,
        },
    decreases ids.len(),
{
    if ids.len() > 0 && ids[0].0 != wanted {
        let rest = ids.drop_first();
        law_a_carrier_carries_the_patch(rest, wanted);
        match carrier(rest, wanted) {
            Some(oid) => {
                let k = choose|k: int|
                    0 <= k < rest.len() && #[trigger] rest[k] == (wanted, oid) && forall|j: int|
                        0 <= j < k ==> (#[trigger] rest[j]).0 != wanted;
                assert(ids[k + 1] == (wanted, oid));
                assert forall|j: int| 0 <= j < k + 1 implies (#[trigger] ids[j]).0 != wanted by {
                    if j > 0 {
                        assert(rest[j - 1] == ids[j]);
                    }
                }
            },
            None => {
                assert forall|k: int| 0 <= k < ids.len() implies (#[trigger] ids[k]).0
                    != wanted by {
                    if k > 0 {
                        assert(rest[k - 1] == ids[k]);
                    }
                }
            },
        }
    } else if ids.len() > 0 {
        assert(ids[0] == (wanted, ids[0].1));
    }
}

/// The ids of the trunk range that a conversation was told: remembered, or
/// computed.
pub open spec fn trunk_ids(
    git: git::GitView,
    path: Text,
    heard: Seq<ask::ReplyView>,
) -> Result<Seq<(Text, Text)>, Text> {
    match heard[3] {
        ask::ReplyView::Range(Some(ids)) => Ok(ids),
        _ => patch_ids(git, path, "log"@, heard[4]),
    }
}

/// A squash is found exactly where a commit of the trunk range carries the patch
/// of the branch's whole diff, and it is that commit; that nothing was found, by
/// the whole of the search, means that none does.
pub proof fn law_a_squash_is_a_commit_with_the_whole_patch(
    git: git::GitView,
    path: Text,
    oid: Text,
    trunk: Trunk<Text>,
    heard: Seq<ask::ReplyView>,
)
    ensures
        ({
            let step = twin_step(git, path, oid, trunk, heard);
            step is Done ==> match step->value.found {
                Ok(Some(Equivalence::Squashed { oid: found })) => {
                    let branch = patch_ids(git, path, "diff-tree"@, heard[2]);
                    let ids = trunk_ids(git, path, heard);
                    &&& heard.len() >= 4
                    &&& branch is Ok && branch->Ok_0.len() > 0
                    &&& ids is Ok
                    &&& ids->Ok_0.contains((branch->Ok_0[0].0, found))
                },
                Ok(None) => {
                    let branch = patch_ids(git, path, "diff-tree"@, heard[2]);
                    ||| !heard[0].ok()
                    ||| heard[0].answer().len() == 0
                    ||| branch is Ok && branch->Ok_0.len() == 0
                    ||| {
                        let ids = trunk_ids(git, path, heard);
                        &&& branch is Ok
                        &&& ids is Ok
                        &&& forall|k: int|
                            0 <= k < ids->Ok_0.len() ==> (#[trigger] ids->Ok_0[k]).0
                                != branch->Ok_0[0].0
                    }
                },
                _ => true,
            }
        }),
{
    let branch = patch_ids(git, path, "diff-tree"@, heard[2]);
    if heard.len() >= 4 && branch is Ok && branch->Ok_0.len() > 0 {
        let ids = trunk_ids(git, path, heard);
        assert(heard.skip(3)[0] == heard[3]);
        if heard.len() >= 5 {
            assert(heard.skip(3)[1] == heard[4]);
        }
        if ids is Ok {
            law_a_carrier_carries_the_patch(ids->Ok_0, branch->Ok_0[0].0);
        }
    }
}

/// A patch comparison has ids only where both commands exited with success: a
/// source that died part of the way is never taken for a short trunk.
pub proof fn law_ids_come_from_two_successes(
    git: git::GitView,
    dir: Text,
    name: Text,
    reply: ask::ReplyView,
)
    ensures
        patch_ids(git, dir, name, reply) is Ok <==> (reply is Piped && reply->source.code == Some(
            0i32,
        ) && reply->sink.code == Some(0i32)),
{
}

/// A line of `patch-id` is a patch and a commit: whatever else follows, the two
/// are read, in the order of the lines.
pub proof fn law_a_patch_line_names_a_patch_and_a_commit(
    lines: Seq<Text>,
    patch: Text,
    commit: Text,
)
    requires
        patch.len() > 0,
        commit.len() > 0,
        forall|i: int| 0 <= i < patch.len() ==> !strings::white(#[trigger] patch[i]),
        forall|i: int| 0 <= i < commit.len() ==> !strings::white(#[trigger] commit[i]),
    ensures
        id_pairs(lines.push(patch.push(' ') + commit)) == id_pairs(lines).push((patch, commit)),
        id_pairs(lines.push(patch)) == id_pairs(lines),
        id_pairs(lines.push(Seq::empty())) == id_pairs(lines),
{
    let line = patch.push(' ') + commit;
    assert(strings::white(' '));
    strings::law_words_come_apart_at_white_space(patch, ' ', commit);
    strings::law_a_text_without_white_space_is_one_word(patch);
    strings::law_a_text_without_white_space_is_one_word(commit);
    assert(strings::words(line) =~= seq![patch, commit]);
    assert(lines.push(line).drop_last() =~= lines);
    assert(lines.push(patch).drop_last() =~= lines);
    assert(lines.push(Seq::empty()).drop_last() =~= lines);
    assert(strings::words(Seq::empty()) =~= Seq::empty());
}

/// The default branch is a name that resolves: the first of those to try that
/// does, with what it resolved to. That there is none means that none did.
pub proof fn law_the_trunk_is_the_first_name_that_resolves(
    git: git::GitView,
    path: Text,
    heard: Seq<ask::ReplyView>,
)
    requires
        trunk_step(git, path, heard) is Done,
    ensures
        ({
            let names = trunk_names(heard[0].answer());
            match trunk_step(git, path, heard)->value {
                Some(trunk) => exists|k: int|
                    {
                        &&& 0 <= k < names.len() && k + 1 < heard.len()
                        &&& trunk.name == #[trigger] names[k]
                        &&& heard[k + 1].ok()
                        &&& trunk.oid == heard[k + 1].answer()
                        &&& forall|j: int| 0 < j <= k ==> !(#[trigger] heard[j]).ok()
                    },
                None => heard.len() > names.len() && forall|j: int|
                    0 < j <= names.len() ==> !(#[trigger] heard[j]).ok(),
            }
        }),
{
    let names = trunk_names(heard[0].answer());
    lemma_seek(
        git,
        path,
        names,
        heard.skip(1),
        0,
        git::trouble(git, path, "symbolic-ref"@, heard[0]),
    );
    let rest = heard.skip(1);
    match trunk_step(git, path, heard)->value {
        Some(trunk) => {
            let k = choose|k: int|
                {
                    &&& 0 <= k < names.len() && k < rest.len()
                    &&& trunk.name == #[trigger] names[k]
                    &&& rest[k].ok()
                    &&& trunk.oid == rest[k].answer()
                    &&& forall|j: int| 0 <= j < k ==> !(#[trigger] rest[j]).ok()
                };
            assert(rest[k] == heard[k + 1]);
            assert forall|j: int| 0 < j <= k implies !(#[trigger] heard[j]).ok() by {
                assert(rest[j - 1] == heard[j]);
            }
            assert(trunk.name == names[k]);
        },
        None => {
            assert forall|j: int| 0 < j <= names.len() implies !(#[trigger] heard[j]).ok() by {
                assert(rest[j - 1] == heard[j]);
            }
        },
    }
}

proof fn lemma_seek(
    git: git::GitView,
    path: Text,
    names: Seq<Text>,
    heard: Seq<ask::ReplyView>,
    from: nat,
    problems: Seq<Text>,
)
    requires
        seek(git, path, names, heard, from, problems) is Done,
        from <= names.len(),
    ensures
        match seek(git, path, names, heard, from, problems)->value {
            Some(trunk) => exists|k: int|
                {
                    &&& from <= k < names.len() && k < heard.len()
                    &&& trunk.name == #[trigger] names[k]
                    &&& heard[k].ok()
                    &&& trunk.oid == heard[k].answer()
                    &&& forall|j: int| from <= j < k ==> !(#[trigger] heard[j]).ok()
                },
            None => (from < names.len() ==> heard.len() >= names.len()) && forall|j: int|
                from <= j < names.len() ==> !(#[trigger] heard[j]).ok(),
        },
    decreases names.len() - from,
{
    if from < names.len() {
        let reply = heard[from as int];
        let more = problems + git::trouble(git, path, "rev-parse"@, reply);
        if reply.ok() {
            assert(names[from as int] == seek(
                git,
                path,
                names,
                heard,
                from,
                problems,
            )->value->0.name);
        } else {
            lemma_seek(git, path, names, heard, from + 1, more);
            match seek(git, path, names, heard, from, problems)->value {
                Some(trunk) => {
                    let k = choose|k: int|
                        {
                            &&& from + 1 <= k < names.len() && k < heard.len()
                            &&& trunk.name == #[trigger] names[k]
                            &&& heard[k].ok()
                            &&& trunk.oid == heard[k].answer()
                            &&& forall|j: int| from + 1 <= j < k ==> !(#[trigger] heard[j]).ok()
                        };
                    assert(trunk.name == names[k]);
                },
                None => {},
            }
        }
    }
}

/// What the remote points at is tried before the usual names, and each of those
/// is tried.
pub proof fn law_the_remote_names_the_trunk_first(pointed: Text, i: int)
    requires
        0 <= i < DEFAULT_BRANCH_CANDIDATES@.len(),
    ensures
        pointed.len() > 0 ==> trunk_names(pointed)[0] == pointed,
        trunk_names(pointed).contains(DEFAULT_BRANCH_CANDIDATES@[i]@),
{
    let usual = strings::views(DEFAULT_BRANCH_CANDIDATES@);
    assert(usual[i] == DEFAULT_BRANCH_CANDIDATES@[i]@);
    if pointed.len() > 0 {
        assert(trunk_names(pointed)[i + 1] == usual[i]);
    } else {
        assert(trunk_names(pointed)[i] == usual[i]);
    }
}

/// Each verdict, and what it rests on, where nothing was remembered: "merged" is
/// an ancestor, "on the default branch" is the branch itself, an equivalent is
/// one that was found, "not merged" is that nothing was found, and every other
/// outcome is "unknown". All of them but "unknown" name the trunk.
pub proof fn law_a_verdict_rests_on_what_was_answered(
    git: git::GitView,
    path: Text,
    head: Head<Text>,
    trunk: Option<Trunk<Text>>,
    heard: Seq<ask::ReplyView>,
)
    requires
        landed_step(git, path, head, trunk, heard) is Done,
        heard.len() >= 2 ==> !(heard[1] is Answer && heard[1]->Answer_0 is Some),
    ensures
        ({
            let name = (trunk->0).name;
            let twin = twin_step(git, path, head.oid()->0, trunk->0, heard.skip(2));
            let asked = heard.len() >= 3 && heard[0] is Ran && heard[0]->Ran_0.code == Some(1i32);
            match landed_step(git, path, head, trunk, heard)->value.landed {
                Landed::IsDefault { name: on } => {
                    &&& trunk is Some && on == name
                    &&& head.branch_name() is Some
                    &&& head.branch_name()->0 == name || "origin/"@ + head.branch_name()->0 == name
                },
                Landed::Merged { into } => {
                    &&& trunk is Some && into == name
                    &&& heard.len() > 0 && heard[0] is Ran && heard[0]->Ran_0.code == Some(0i32)
                },
                Landed::Equivalent { into, how } => {
                    &&& trunk is Some && into == name && asked
                    &&& twin is Done && twin->value.found == Ok::<Option<Equivalence<Text>>, Text>(
                        Some(how),
                    )
                },
                Landed::NotMerged { into } => {
                    &&& trunk is Some && into == name && asked
                    &&& twin is Done && twin->value.found == Ok::<Option<Equivalence<Text>>, Text>(
                        None,
                    )
                },
                Landed::Unknown { reason } => trunk is None || {
                    &&& !(heard.len() > 0 && heard[0] is Ran && heard[0]->Ran_0.code == Some(0i32))
                        || head.oid() is None || (head.oid()->0).len() == 0
                    &&& asked && head.oid() is Some && (head.oid()->0).len() > 0 ==> twin is Done
                        && twin->value.found is Err
                },
            }
        }),
{
    if trunk is Some && head.branch_name() is Some {
        strings::law_a_prefix_comes_off("origin/"@, Seq::empty(), (trunk->0).name);
    }
    if heard.len() == 2 {
        assert(heard.skip(2) =~= Seq::empty());
    }
}

/// A checkout on the trunk is said to be on it, under its own name or under the
/// remote's name for it, whatever else was answered.
pub proof fn law_the_trunk_itself_is_the_default_branch(
    git: git::GitView,
    path: Text,
    head: Head<Text>,
    trunk: Trunk<Text>,
    heard: Seq<ask::ReplyView>,
)
    requires
        head.branch_name() is Some,
        head.branch_name()->0 == trunk.name || "origin/"@ + head.branch_name()->0 == trunk.name,
    ensures
        landed_step(git, path, head, Some(trunk), heard) is Done,
        landed_step(git, path, head, Some(trunk), heard)->value.landed == (Landed::IsDefault {
            name: trunk.name,
        }),
{
    strings::law_a_prefix_comes_off("origin/"@, head.branch_name()->0, trunk.name);
}

/// Both sides of a patch comparison are produced with the same options: the two
/// commands differ in their subcommand and in what they are about, and in
/// nothing else.
pub proof fn law_both_sides_are_produced_alike(base: Text, oid: Text, trunk: Text, i: int)
    requires
        1 <= i <= PATCH_ID_DIFF_OPTIONS@.len() + 1,
    ensures
        branch_diff_args(base, oid)[i] == trunk_diff_args(base, trunk)[i],
        i >= 2 ==> branch_diff_args(base, oid)[i] == PATCH_ID_DIFF_OPTIONS@[i - 2]@,
        branch_diff_args(base, oid).contains(base),
        branch_diff_args(base, oid).last() == oid,
        trunk_diff_args(base, trunk).last() == base + ".."@ + trunk,
{
    let all = branch_diff_args(base, oid);
    let n = PATCH_ID_DIFF_OPTIONS@.len() as int;
    assert(strings::views(PATCH_ID_DIFF_OPTIONS@).len() == n);
    assert(seq!["diff-tree"@, base, oid].skip(1) =~= seq![base, oid]);
    assert(all[n + 2] == base);
    assert(seq!["log"@, "--no-merges"@, "--format=commit %H"@, base + ".."@ + trunk].skip(1)
        =~= seq!["--no-merges"@, "--format=commit %H"@, base + ".."@ + trunk]);
}

} // verus!
