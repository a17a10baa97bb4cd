//! The read-only git layer.
//!
//! Nothing here runs git. Each question put to a repository is a conversation:
//! given the answers heard so far, a function of this module says what to ask
//! next, or what the conversation came to. Who runs the commands holds the
//! process handles and the deadline, and decides nothing.

use vstd::prelude::*;

use crate::config::Ignored;
use crate::git::ask::Reply;
use crate::model::Text;
use crate::paths;
use crate::paths::Place;
use crate::strings;

pub mod ask;
pub mod dates;
pub mod identify;
pub mod landing;
pub mod parse;
pub mod report;
pub mod stages;

verus! {

// ---------------------------------------------------------------------------
// The runner
// ---------------------------------------------------------------------------

/// How git is run: the binary, the deadline of one command in seconds, and the
/// paths whose lines are not counted.
#[derive(Debug, PartialEq, Eq)]
pub struct Git {
    program: String,
    timeout: u64,
    ignored: Ignored,
}

pub struct GitView {
    pub program: Text,
    pub timeout: u64,
    pub ignored: Seq<Text>,
}

impl View for Git {
    type V = GitView;

    closed spec fn view(&self) -> GitView {
        GitView { program: self.program@, timeout: self.timeout, ignored: self.ignored@ }
    }
}

impl Git {
    /// Plugin commands run with a minimal `PATH` and no shell, so the binary is
    /// resolved beforehand: see [`choose_program`].
    pub fn new(program: String, timeout: u64) -> (out: Git)
        ensures
            out@.program == program@,
            out@.timeout == timeout,
            out@.ignored == Seq::<Text>::empty(),
    {
        let none: Vec<String> = Vec::new();
        let ignored = Ignored::new(none);
        proof {
            assert(strings::views(none@) =~= Seq::empty());
            reveal_with_fuel(crate::config::tidied, 1);
        }
        assert(ignored@ =~= Seq::empty());
        Git { program, timeout, ignored }
    }

    /// The same runner, which leaves the lines of these paths out of its counts.
    pub fn ignoring(self, ignored: Ignored) -> (out: Git)
        ensures
            out@ == (GitView { ignored: ignored@, ..self@ }),
    {
        Git { program: self.program, timeout: self.timeout, ignored }
    }

    /// Path of the git binary in use. Rendered in error messages, because "git
    /// not found" from inside a plugin with a minimal `PATH` is otherwise a very
    /// confusing failure.
    pub fn program(&self) -> (out: &str)
        ensures
            out@ == self@.program,
    {
        self.program.as_str()
    }

    pub fn timeout(&self) -> (out: u64)
        ensures
            out == self@.timeout,
    {
        self.timeout
    }

    pub fn ignored(&self) -> (out: &Ignored)
        ensures
            out@ == self@.ignored,
    {
        &self.ignored
    }
}

// ---------------------------------------------------------------------------
// The binary
// ---------------------------------------------------------------------------

/// Where a git binary may be, in order: below each directory of a search path,
/// then the two locations a Unix git is installed in.
pub open spec fn places(search: Option<Text>) -> Seq<Text> {
    let usual = seq!["/usr/bin/git"@, "/usr/local/bin/git"@];
    match search {
        Some(search) => {
            let directories = strings::pieces(search, ':');
            Seq::new(directories.len(), |i: int| paths::below(directories[i], "git"@)) + usual
        },
        None => usual,
    }
}

/// The candidates for the git binary, given the value of `PATH`.
pub fn program_candidates(search: Option<&str>) -> (out: Vec<String>)
    ensures
        strings::views(out@) == places(strings::view_of(search)),
{
    broadcast use strings::group_lists;

    let mut out: Vec<String> = Vec::new();
    if let Some(search) = search {
        let directories = strings::split(search, ':');
        let ghost named = strings::views(directories@);
        let ghost all = Seq::new(named.len(), |i: int| paths::below(named[i], "git"@));
        for i in 0..directories.len()
            invariant
                named == strings::views(directories@),
                all == Seq::new(named.len(), |i: int| paths::below(named[i], "git"@)),
                strings::views(out@) == all.take(i as int),
        {
            broadcast use strings::group_lists;

            assert(named[i as int] == directories@[i as int]@);
            out.push(paths::join(directories[i].as_str(), "git"));
            assert(all.take(i as int).push(all[i as int]) =~= all.take(i + 1));
        }
        assert(all.take(all.len() as int) =~= all);
    }
    let ghost before = strings::views(out@);
    out.push("/usr/bin/git".to_string());
    out.push("/usr/local/bin/git".to_string());
    assert(strings::views(out@) =~= before + seq!["/usr/bin/git"@, "/usr/local/bin/git"@]);
    assert(search is None ==> strings::views(out@) =~= places(None));
    out
}

/// The first of the candidates that can be run.
pub open spec fn first_runnable(candidates: Seq<Text>, runnable: Seq<bool>) -> Option<Text>
    decreases candidates.len(),
{
    if candidates.len() == 0 {
        None
    } else {
        match first_runnable(candidates.drop_last(), runnable) {
            Some(found) => Some(found),
            None => {
                let last = candidates.len() - 1;
                if last < runnable.len() && runnable[last] {
                    Some(candidates[last])
                } else {
                    None
                }
            },
        }
    }
}

/// The git binary: the one named explicitly, where one is; else the first
/// candidate that can be run; else the bare name.
pub open spec fn chosen_program(
    explicit: Option<Text>,
    candidates: Seq<Text>,
    runnable: Seq<bool>,
) -> Text {
    if explicit is Some && (explicit->0).len() > 0 {
        explicit->0
    } else {
        match first_runnable(candidates, runnable) {
            Some(found) => found,
            None => "git"@,
        }
    }
}

/// Picks the git binary. `explicit` is the value of `GIT`, which is how a user
/// pins a specific build; `runnable` says which of the candidates can be run.
/// The last resort is the bare name, so that the failure is at least reported
/// with the same message shape as everything else.
pub fn choose_program(
    explicit: Option<&str>,
    candidates: &Vec<String>,
    runnable: &Vec<bool>,
) -> (out: String)
    ensures
        out@ == chosen_program(
            strings::view_of(explicit),
            strings::views(candidates@),
            runnable@,
        ),
{
    broadcast use strings::group_lists;

    if let Some(explicit) = explicit {
        if !strings::is_empty(explicit) {
            return explicit.to_string();
        }
    }
    let ghost all = strings::views(candidates@);
    let mut found: Option<String> = None;
    for i in 0..candidates.len()
        invariant
            all == strings::views(candidates@),
            strings::view_of(found) == first_runnable(all.take(i as int), runnable@),
    {
        broadcast use strings::group_lists;

        assert(all.take(i + 1).drop_last() =~= all.take(i as int));
        assert(all[i as int] == candidates@[i as int]@);
        let free = match &found {
            Some(_) => false,
            None => true,
        };
        if free && i < runnable.len() && runnable[i] {
            found = Some(candidates[i].clone());
        }
    }
    assert(all.take(all.len() as int) =~= all);
    match found {
        Some(found) => found,
        None => "git".to_string(),
    }
}

// ---------------------------------------------------------------------------
// The command line
// ---------------------------------------------------------------------------

/// What is removed from the environment of every command: a caller's own git
/// environment would silently retarget it at another repository.
pub const SCRUBBED_VARIABLES: [&'static str; 11] = [
    "GIT_DIR",
    "GIT_WORK_TREE",
    "GIT_INDEX_FILE",
    "GIT_OBJECT_DIRECTORY",
    "GIT_ALTERNATE_OBJECT_DIRECTORIES",
    "GIT_COMMON_DIR",
    "GIT_NAMESPACE",
    "GIT_LITERAL_PATHSPECS",
    "GIT_GLOB_PATHSPECS",
    "GIT_NOGLOB_PATHSPECS",
    "GIT_ICASE_PATHSPECS",
];

/// The variable that points a diff at the copy of the index.
pub const INDEX_VARIABLE: &'static str = "GIT_INDEX_FILE";

/// The command line of every invocation: the directory, the read-only flag, the
/// subcommand with its arguments.
pub open spec fn command_line(dir: Place<Text, Seq<u8>>, args: Seq<Text>) -> Seq<
    Place<Text, Seq<u8>>,
> {
    seq![Place::Named("-C"@), dir, Place::Named("--no-optional-locks"@)] + Seq::new(
        args.len(),
        |i: int| Place::Named(args[i]),
    )
}

pub fn command_args(dir: &Place, args: &Vec<String>) -> (out: Vec<Place>)
    ensures
        strings::views(out@) == command_line(dir@, strings::views(args@)),
{
    broadcast use strings::group_lists;

    let ghost all = command_line(dir@, strings::views(args@));
    let mut out: Vec<Place> = Vec::new();
    out.push(Place::Named("-C".to_string()));
    out.push(dir.clone());
    out.push(Place::Named("--no-optional-locks".to_string()));
    assert(strings::views(out@) =~= all.take(3));
    for i in 0..args.len()
        invariant
            all == command_line(dir@, strings::views(args@)),
            strings::views(out@) == all.take(i + 3),
    {
        broadcast use strings::group_lists;

        assert(strings::views(args@)[i as int] == args@[i as int]@);
        out.push(Place::Named(args[i].clone()));
        assert(all.take(i + 3).push(all[i + 3]) =~= all.take(i + 4));
    }
    assert(all.take(all.len() as int) =~= all);
    out
}

/// What every command is run with: no optional locks, no prompt, no pager, no
/// fetching of missing objects, and messages that are not translated.
pub open spec fn settings() -> Seq<(Text, Text)> {
    seq![
        ("GIT_OPTIONAL_LOCKS"@, "0"@),
        ("GIT_TERMINAL_PROMPT"@, "0"@),
        ("GIT_PAGER"@, "cat"@),
        ("GIT_NO_LAZY_FETCH"@, "1"@),
        ("LC_ALL"@, "C"@),
    ]
}

/// The environment a command is run with on top of the scrubbed one: the
/// settings, then the copy of the index where there is one.
pub open spec fn environment(copy: Option<Text>) -> Seq<(Text, Text)> {
    match copy {
        Some(path) => settings().push((INDEX_VARIABLE@, path)),
        None => settings(),
    }
}

/// The variables a command is run with.
pub fn command_environment(copy: Option<&str>) -> (out: Vec<(String, String)>)
    ensures
        strings::views(out@) == environment(strings::view_of(copy)),
{
    broadcast use strings::group_lists;

    let mut out: Vec<(String, String)> = Vec::new();
    out.push(("GIT_OPTIONAL_LOCKS".to_string(), "0".to_string()));
    out.push(("GIT_TERMINAL_PROMPT".to_string(), "0".to_string()));
    out.push(("GIT_PAGER".to_string(), "cat".to_string()));
    out.push(("GIT_NO_LAZY_FETCH".to_string(), "1".to_string()));
    out.push(("LC_ALL".to_string(), "C".to_string()));
    assert(strings::views(out@) =~= settings());
    if let Some(path) = copy {
        out.push((INDEX_VARIABLE.to_string(), path.to_string()));
    }
    out
}

/// Every command carries the read-only flag in front of its subcommand, and
/// only a command that is handed a copy of the index has an index named to it.
pub proof fn law_every_command_is_read_only(dir: Place<Text, Seq<u8>>, args: Seq<Text>)
    ensures
        command_line(dir, args)[2] == Place::<Text, Seq<u8>>::Named("--no-optional-locks"@),
        command_line(dir, args).len() == args.len() + 3,
        forall|i: int|
            0 <= i < args.len() ==> command_line(dir, args)[i + 3]
                == Place::<Text, Seq<u8>>::Named(#[trigger] args[i]),
        environment(None).contains(("GIT_OPTIONAL_LOCKS"@, "0"@)),
        forall|i: int|
            0 <= i < environment(None).len() ==> (#[trigger] environment(None)[i]).0
                != INDEX_VARIABLE@,
{
    assert(settings()[0] == ("GIT_OPTIONAL_LOCKS"@, "0"@));
    reveal_strlit("GIT_OPTIONAL_LOCKS");
    reveal_strlit("GIT_TERMINAL_PROMPT");
    reveal_strlit("GIT_PAGER");
    reveal_strlit("GIT_NO_LAZY_FETCH");
    reveal_strlit("LC_ALL");
    reveal_strlit("GIT_INDEX_FILE");
    assert("GIT_OPTIONAL_LOCKS"@.len() == 18);
    assert("GIT_TERMINAL_PROMPT"@.len() == 19);
    assert("GIT_PAGER"@.len() == 9);
    assert("GIT_NO_LAZY_FETCH"@.len() == 17);
    assert("LC_ALL"@.len() == 6);
    assert("GIT_INDEX_FILE"@.len() == 14);
}

// ---------------------------------------------------------------------------
// Commands that did not come to an end
// ---------------------------------------------------------------------------

/// The problem of a command that hung or could not be run; nothing for one that
/// ran to its end, whatever its exit status, because for most commands that is
/// an answer.
pub open spec fn trouble(git: GitView, dir: Text, name: Text, reply: ask::ReplyView) -> Seq<Text> {
    match reply {
        ask::ReplyView::TimedOut => seq![
            "git "@ + name + " timed out after "@ + ask::span_text(git.timeout as nat) + " in "@
                + dir,
        ],
        ask::ReplyView::NotStarted(error) => seq![
            "could not run "@ + git.program + " in "@ + dir + ": "@ + error,
        ],
        ask::ReplyView::NotAwaited(error) => seq![
            "waiting for git "@ + name + " in "@ + dir + ": "@ + error,
        ],
        _ => Seq::empty(),
    }
}

/// The problems with that of one more command.
pub fn note_trouble(
    git: &Git,
    dir: &str,
    name: &str,
    reply: &Reply,
    problems: Vec<String>,
) -> (out: Vec<String>)
    ensures
        strings::views(out@) == strings::views(problems@) + trouble(git@, dir@, name@, reply@),
{
    broadcast use strings::group_lists;

    let mut out = problems;
    match reply {
        Reply::TimedOut => {
            let start = strings::cat4(
                "git ",
                name,
                " timed out after ",
                ask::span(git.timeout).as_str(),
            );
            out.push(strings::cat3(start.as_str(), " in ", dir));
        },
        Reply::NotStarted(error) => {
            let start = strings::cat4("could not run ", git.program.as_str(), " in ", dir);
            out.push(strings::cat3(start.as_str(), ": ", error.as_str()));
        },
        Reply::NotAwaited(error) => {
            let start = strings::cat4("waiting for git ", name, " in ", dir);
            out.push(strings::cat3(start.as_str(), ": ", error.as_str()));
        },
        _ => {},
    }
    assert(strings::views(out@) =~= strings::views(problems@) + trouble(
        git@,
        dir@,
        name@,
        reply@,
    ));
    out
}

/// A command that hung, that could not be started or whose end could not be
/// learned is trouble, told once, with where it was and why; one that ran to its
/// end is none, whatever it answered.
pub proof fn law_trouble_is_told(git: GitView, dir: Text, name: Text, reply: ask::ReplyView)
    ensures
        ({
            let told = trouble(git, dir, name, reply);
            if reply is TimedOut || reply is NotStarted || reply is NotAwaited {
                &&& told.len() == 1
                &&& strings::holds(told[0], dir)
                &&& reply is NotStarted ==> strings::holds(told[0], reply->NotStarted_0)
                    && strings::holds(told[0], git.program)
                &&& reply is NotAwaited ==> strings::holds(told[0], reply->NotAwaited_0)
                &&& !(reply is NotStarted) ==> strings::holds(told[0], name)
            } else {
                told.len() == 0
            }
        }),
{
    broadcast use strings::lemma_holds_together;

    strings::lemma_holds_itself(dir);
    strings::lemma_holds_itself(name);
    strings::lemma_holds_itself(git.program);
    if reply is NotStarted {
        strings::lemma_holds_itself(reply->NotStarted_0);
    }
    if reply is NotAwaited {
        strings::lemma_holds_itself(reply->NotAwaited_0);
    }
}

/// The binary is the one that was named, else the first of the candidates that
/// can be run, else the bare name.
pub proof fn law_the_first_runnable_binary_is_chosen(
    explicit: Option<Text>,
    candidates: Seq<Text>,
    runnable: Seq<bool>,
    k: int,
)
    requires
        candidates.len() == runnable.len(),
    ensures
        explicit is Some && (explicit->0).len() > 0 ==> chosen_program(
            explicit,
            candidates,
            runnable,
        ) == explicit->0,
        explicit is None && 0 <= k < candidates.len() && runnable[k] && (forall|j: int|
            0 <= j < k ==> !#[trigger] runnable[j]) ==> chosen_program(
            explicit,
            candidates,
            runnable,
        ) == candidates[k],
        explicit is None && (forall|j: int| 0 <= j < runnable.len() ==> !#[trigger] runnable[j])
            ==> chosen_program(explicit, candidates, runnable) == "git"@,
{
    lemma_first_runnable(candidates, runnable);
    if first_runnable(candidates, runnable) is Some {
        let at = choose|at: int|
            0 <= at < candidates.len() && at < runnable.len() && #[trigger] runnable[at]
                && candidates[at] == first_runnable(candidates, runnable)->0 && forall|j: int|
                0 <= j < at ==> !#[trigger] runnable[j];
        if explicit is None && 0 <= k < candidates.len() && runnable[k] && (forall|j: int|
            0 <= j < k ==> !#[trigger] runnable[j]) {
            assert(at == k);
        }
    }
}

proof fn lemma_first_runnable(candidates: Seq<Text>, runnable: Seq<bool>)
    requires
        candidates.len() <= runnable.len(),
    ensures
        match first_runnable(candidates, runnable) {
            Some(found) => exists|at: int|
                0 <= at < candidates.len() && at < runnable.len() && #[trigger] runnable[at]
                    && candidates[at] == found && forall|j: int|
                    0 <= j < at ==> !#[trigger] runnable[j],
            None => forall|j: int| 0 <= j < candidates.len() ==> !#[trigger] runnable[j],
        },
    decreases candidates.len(),
{
    if candidates.len() > 0 {
        let rest = candidates.drop_last();
        lemma_first_runnable(rest, runnable);
        if first_runnable(rest, runnable) is Some {
            let at = choose|at: int|
                0 <= at < rest.len() && at < runnable.len() && #[trigger] runnable[at] && rest[at]
                    == first_runnable(rest, runnable)->0 && forall|j: int|
                    0 <= j < at ==> !#[trigger] runnable[j];
            assert(candidates[at] == rest[at]);
            assert(runnable[at]);
        } else {
            let last = candidates.len() - 1;
            if runnable[last] {
                assert(candidates[last] == first_runnable(candidates, runnable)->0);
            }
        }
    }
}

/// Git is looked for in the directories of the search path, in their order, and
/// then in the usual places.
pub proof fn law_every_directory_is_searched(search: Text, i: int)
    requires
        0 <= i < strings::pieces(search, ':').len(),
    ensures
        places(Some(search))[i] == paths::below(strings::pieces(search, ':')[i], "git"@),
        places(Some(search)).len() == strings::pieces(search, ':').len() + places(None).len(),
        places(None).len() > 0,
        forall|k: int|
            0 <= k < places(None).len() ==> places(Some(search))[k + strings::pieces(
                search,
                ':',
            ).len()] == #[trigger] places(None)[k],
{
}

/// A command runs in the settings that every command runs in, and on another
/// index exactly where one is given.
pub proof fn law_another_index_is_used_only_where_one_is_given(path: Text)
    ensures
        environment(None) == settings(),
        environment(Some(path)) == settings().push((INDEX_VARIABLE@, path)),
        settings().len() > 0,
{
}

} // verus!
