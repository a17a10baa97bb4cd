//! Questions and answers: what a conversation with a repository is made of.

use vstd::prelude::*;

use crate::clock::Moment;
use crate::model::{Landed, Text};
use crate::paths::Place;
use crate::strings;

verus! {

// ---------------------------------------------------------------------------
// Answers
// ---------------------------------------------------------------------------

/// What a finished command left behind. `code` is `None` where it was killed by
/// a signal.
#[derive(Debug, PartialEq, Eq)]
pub struct Output<B = Vec<u8>> {
    pub code: Option<i32>,
    pub stdout: B,
    pub stderr: B,
}

impl View for Output {
    type V = Output<Seq<u8>>;

    open spec fn view(&self) -> Output<Seq<u8>> {
        Output { code: self.code, stdout: self.stdout@, stderr: self.stderr@ }
    }
}

impl Output<Seq<u8>> {
    pub open spec fn succeeded(self) -> bool {
        self.code == Some(0i32)
    }

    pub open spec fn said(self) -> Text {
        strings::trimmed(strings::lossy_text(self.stdout))
    }

    /// Standard error as a single line: its words with one space between them.
    pub open spec fn complaint(self) -> Text {
        strings::joined(strings::words(strings::lossy_text(self.stderr)), " "@)
    }
}

impl Output {
    pub fn ok(&self) -> (answer: bool)
        ensures
            answer == self@.succeeded(),
    {
        match self.code {
            Some(code) => code == 0,
            None => false,
        }
    }

    pub fn stdout_text(&self) -> (out: String)
        ensures
            out@ == self@.said(),
    {
        strings::trim(strings::lossy(self.stdout.as_slice()).as_str())
    }

    /// Standard error as a single line.
    ///
    /// Everything it feeds is rendered as one clause, and git's diagnostics are
    /// routinely several lines.
    pub fn stderr_text(&self) -> (out: String)
        ensures
            out@ == self@.complaint(),
    {
        let words = strings::split_words(strings::lossy(self.stderr.as_slice()).as_str());
        strings::join(&words, " ")
    }
}

/// A patch id and the trunk commit that carries it.
pub type PatchId = (String, String);

/// What came of a question.
#[derive(Debug, PartialEq, Eq)]
pub enum Reply {
    /// The command ran to its end.
    Ran(Output),
    /// The command was killed at its deadline.
    TimedOut,
    /// The command could not be started.
    NotStarted(String),
    /// The end of the command could not be learned.
    NotAwaited(String),
    /// Two commands with a pipe between them ran to their ends.
    Piped { source: Output, sink: Output },
    /// One of two commands could not be started: the first, or the second.
    PipeNotStarted { first: bool, error: String },
    /// The end of one of two commands could not be learned.
    PipeNotAwaited { first: bool, error: String },
    Yes,
    No,
    /// There is no index to copy.
    NoIndex,
    /// The index has been copied.
    Ready,
    /// Something could not be made.
    NotMade(String),
    /// A directory has been made.
    Made,
    /// The canonical form of a path, or the path where it has none.
    Canonical(String),
    /// The same, in bytes.
    CanonicalAt(Vec<u8>),
    /// What the local clock shows at each of some instants.
    Times(Vec<Moment>),
    /// What is remembered of a landing.
    Answer(Option<Landed>),
    /// What is remembered of a trunk range.
    Range(Option<Vec<PatchId>>),
}

pub open spec fn views_of<T: View>(items: Option<Vec<T>>) -> Option<Seq<T::V>> {
    match items {
        Some(items) => Some(strings::views(items@)),
        None => None,
    }
}

#[verifier::ext_equal]
pub enum ReplyView {
    Ran(Output<Seq<u8>>),
    TimedOut,
    NotStarted(Text),
    NotAwaited(Text),
    Piped { source: Output<Seq<u8>>, sink: Output<Seq<u8>> },
    PipeNotStarted { first: bool, error: Text },
    PipeNotAwaited { first: bool, error: Text },
    Yes,
    No,
    NoIndex,
    Ready,
    NotMade(Text),
    Made,
    Canonical(Text),
    CanonicalAt(Seq<u8>),
    Times(Seq<Moment<Text>>),
    Answer(Option<Landed<Text>>),
    Range(Option<Seq<(Text, Text)>>),
}

impl View for Reply {
    type V = ReplyView;

    open spec fn view(&self) -> ReplyView {
        match self {
            Reply::Ran(out) => ReplyView::Ran(out@),
            Reply::TimedOut => ReplyView::TimedOut,
            Reply::NotStarted(error) => ReplyView::NotStarted(error@),
            Reply::NotAwaited(error) => ReplyView::NotAwaited(error@),
            Reply::Piped { source, sink } => ReplyView::Piped { source: source@, sink: sink@ },
            Reply::PipeNotStarted { first, error } => ReplyView::PipeNotStarted {
                first: *first,
                error: error@,
            },
            Reply::PipeNotAwaited { first, error } => ReplyView::PipeNotAwaited {
                first: *first,
                error: error@,
            },
            Reply::Yes => ReplyView::Yes,
            Reply::No => ReplyView::No,
            Reply::NoIndex => ReplyView::NoIndex,
            Reply::Ready => ReplyView::Ready,
            Reply::NotMade(error) => ReplyView::NotMade(error@),
            Reply::Made => ReplyView::Made,
            Reply::Canonical(path) => ReplyView::Canonical(path@),
            Reply::CanonicalAt(path) => ReplyView::CanonicalAt(path@),
            Reply::Times(moments) => ReplyView::Times(strings::views(moments@)),
            Reply::Answer(landed) => ReplyView::Answer(strings::view_of(*landed)),
            Reply::Range(ids) => ReplyView::Range(views_of(*ids)),
        }
    }
}

impl ReplyView {
    /// The output of a command that ran to its end.
    pub open spec fn output(self) -> Option<Output<Seq<u8>>> {
        match self {
            ReplyView::Ran(out) => Some(out),
            _ => None,
        }
    }

    pub open spec fn ok(self) -> bool {
        match self {
            ReplyView::Ran(out) => out.succeeded(),
            _ => false,
        }
    }

    /// What a command that succeeded printed; nothing for any other outcome.
    pub open spec fn answer(self) -> Text {
        match self {
            ReplyView::Ran(out) => if out.succeeded() {
                out.said()
            } else {
                Seq::empty()
            },
            _ => Seq::empty(),
        }
    }
}

impl Reply {
    pub fn ok(&self) -> (answer: bool)
        ensures
            answer == self@.ok(),
    {
        match self {
            Reply::Ran(out) => out.ok(),
            _ => false,
        }
    }

    pub fn answer(&self) -> (out: String)
        ensures
            out@ == self@.answer(),
    {
        match self {
            Reply::Ran(out) => if out.ok() {
                out.stdout_text()
            } else {
                String::new()
            },
            _ => String::new(),
        }
    }
}

// ---------------------------------------------------------------------------
// Questions
// ---------------------------------------------------------------------------

/// What to ask next. Each is answered by one [`Reply`].
#[derive(Debug, PartialEq, Eq)]
pub enum Ask {
    /// Run git in a directory: `Ran`, `TimedOut`, `NotStarted` or `NotAwaited`.
    Run { dir: String, args: Vec<String> },
    /// The same, in a directory whose path is no text.
    RunAt { bytes: Vec<u8>, args: Vec<String> },
    /// The same, with `GIT_INDEX_FILE` pointed at the copy of the index.
    RunOnCopy { dir: String, args: Vec<String> },
    /// Run git and pipe what it prints into `git patch-id --stable`: `Piped`,
    /// `TimedOut`, `PipeNotStarted` or `PipeNotAwaited`.
    PatchIds { dir: String, args: Vec<String> },
    /// Whether there is something at a path: `Yes` or `No`.
    Exists { path: String },
    /// Whether a directory is at a path: `Yes` or `No`.
    IsDirectory { path: String },
    /// Copy a worktree's index out of the way: `NoIndex`, `Ready` or `NotMade`.
    CopyIndex { index: String },
    /// Make a directory, with those above it: `Made` or `NotMade`.
    MakeDirectory { path: String },
    /// The canonical form of a path: `Canonical`.
    Canonicalize { path: String },
    /// The canonical form of a path in bytes: `CanonicalAt`.
    CanonicalizeAt { bytes: Vec<u8> },
    /// What the local clock shows at some instants: `Times`.
    LocalTimes { instants: Vec<i64> },
    /// What is remembered of a landing: `Answer`.
    RecallAnswer { key: String },
    /// What is remembered of a trunk range: `Range`.
    RecallRange { key: String },
}

#[verifier::ext_equal]
pub enum AskView {
    Run { dir: Text, args: Seq<Text> },
    RunAt { bytes: Seq<u8>, args: Seq<Text> },
    RunOnCopy { dir: Text, args: Seq<Text> },
    PatchIds { dir: Text, args: Seq<Text> },
    Exists { path: Text },
    IsDirectory { path: Text },
    CopyIndex { index: Text },
    MakeDirectory { path: Text },
    Canonicalize { path: Text },
    CanonicalizeAt { bytes: Seq<u8> },
    LocalTimes { instants: Seq<i64> },
    RecallAnswer { key: Text },
    RecallRange { key: Text },
}

impl View for Ask {
    type V = AskView;

    open spec fn view(&self) -> AskView {
        match self {
            Ask::Run { dir, args } => AskView::Run { dir: dir@, args: strings::views(args@) },
            Ask::RunAt { bytes, args } => AskView::RunAt {
                bytes: bytes@,
                args: strings::views(args@),
            },
            Ask::RunOnCopy { dir, args } => AskView::RunOnCopy {
                dir: dir@,
                args: strings::views(args@),
            },
            Ask::PatchIds { dir, args } => AskView::PatchIds {
                dir: dir@,
                args: strings::views(args@),
            },
            Ask::Exists { path } => AskView::Exists { path: path@ },
            Ask::IsDirectory { path } => AskView::IsDirectory { path: path@ },
            Ask::CopyIndex { index } => AskView::CopyIndex { index: index@ },
            Ask::MakeDirectory { path } => AskView::MakeDirectory { path: path@ },
            Ask::Canonicalize { path } => AskView::Canonicalize { path: path@ },
            Ask::CanonicalizeAt { bytes } => AskView::CanonicalizeAt { bytes: bytes@ },
            Ask::LocalTimes { instants } => AskView::LocalTimes { instants: instants@ },
            Ask::RecallAnswer { key } => AskView::RecallAnswer { key: key@ },
            Ask::RecallRange { key } => AskView::RecallRange { key: key@ },
        }
    }
}

/// Where a conversation stands: a question to ask, or what it came to together
/// with the problems met on the way.
#[derive(Debug, PartialEq, Eq)]
pub enum Step<V> {
    Ask(Ask),
    Done { value: V, problems: Vec<String> },
}

#[verifier::ext_equal]
pub enum StepView<V> {
    Ask(AskView),
    Done { value: V, problems: Seq<Text> },
}

impl<V: View> View for Step<V> {
    type V = StepView<V::V>;

    open spec fn view(&self) -> StepView<V::V> {
        match self {
            Step::Ask(ask) => StepView::Ask(ask@),
            Step::Done { value, problems } => StepView::Done {
                value: value@,
                problems: strings::views(problems@),
            },
        }
    }
}

pub open spec fn run<V>(dir: Text, args: Seq<Text>) -> StepView<V> {
    StepView::Ask(AskView::Run { dir, args })
}

pub open spec fn done<V>(value: V, problems: Seq<Text>) -> StepView<V> {
    StepView::Done { value, problems }
}

/// The step that asks for a command to be run.
pub fn ask_run<V: View>(dir: &str, args: &[&str]) -> (out: Step<V>)
    ensures
        out@ == run::<V::V>(dir@, strings::views(args@)),
{
    Step::Ask(Ask::Run { dir: dir.to_string(), args: strings::strings_of(args) })
}

/// The question that runs a command in a place.
pub open spec fn run_at(place: Place<Text, Seq<u8>>, args: Seq<Text>) -> AskView {
    match place {
        Place::Named(dir) => AskView::Run { dir, args },
        Place::Raw(bytes) => AskView::RunAt { bytes, args },
    }
}

/// The step that asks for a command to be run in a place.
pub fn ask_run_at<V: View>(place: &Place, args: &[&str]) -> (out: Step<V>)
    ensures
        out@ == StepView::<V::V>::Ask(run_at(place@, strings::views(args@))),
{
    match place.clone() {
        Place::Named(dir) => Step::Ask(Ask::Run { dir, args: strings::strings_of(args) }),
        Place::Raw(bytes) => Step::Ask(Ask::RunAt { bytes, args: strings::strings_of(args) }),
    }
}

pub fn ask_run_on_copy<V: View>(dir: &str, args: &[&str]) -> (out: Step<V>)
    ensures
        out@ == StepView::<V::V>::Ask(
            AskView::RunOnCopy { dir: dir@, args: strings::views(args@) },
        ),
{
    Step::Ask(Ask::RunOnCopy { dir: dir.to_string(), args: strings::strings_of(args) })
}

// ---------------------------------------------------------------------------
// Trouble
// ---------------------------------------------------------------------------

/// A number of whole seconds, as a deadline is written.
pub open spec fn span_text(seconds: nat) -> Text {
    if seconds == 0 {
        "0ns"@
    } else {
        strings::decimal(seconds) + "s"@
    }
}

pub fn span(seconds: u64) -> (out: String)
    ensures
        out@ == span_text(seconds as nat),
{
    if seconds == 0 {
        "0ns".to_string()
    } else {
        strings::cat2(strings::number(seconds).as_str(), "s")
    }
}

/// How a child ended, in words: a process killed by a signal has no code.
pub open spec fn exit_text(code: Option<i32>) -> Text {
    match code {
        Some(code) => strings::signed_decimal(code as int),
        None => "on a signal"@,
    }
}

pub fn exit_label(code: Option<i32>) -> (out: String)
    ensures
        out@ == exit_text(code),
{
    match code {
        Some(code) => strings::signed_number(code as i64),
        None => "on a signal".to_string(),
    }
}

/// A reply is an answer exactly where the command ran and ended with success; the
/// answer is then what it printed, without white space around it, and nothing
/// else is.
pub proof fn law_only_success_is_an_answer(reply: ReplyView)
    ensures
        reply.ok() <==> reply is Ran && reply->Ran_0.code == Some(0i32),
        reply.ok() ==> reply.answer() == strings::trimmed(
            strings::lossy_text(reply->Ran_0.stdout),
        ),
        !reply.ok() ==> reply.answer().len() == 0,
{
}

/// A command is run in the directory it is meant for, by its name or by its
/// bytes, with its arguments as they are.
pub proof fn law_a_command_is_run_where_it_is_meant(
    place: Place<Text, Seq<u8>>,
    dir: Text,
    args: Seq<Text>,
)
    ensures
        match run_at(place, args) {
            AskView::Run { dir, args: given } => place == Place::<Text, Seq<u8>>::Named(dir) && given
                == args,
            AskView::RunAt { bytes, args: given } => place == Place::<Text, Seq<u8>>::Raw(bytes)
                && given == args,
            _ => false,
        },
        run::<bool>(dir, args) == StepView::<bool>::Ask(AskView::Run { dir, args }),
{
}

/// A span of time is told in seconds.
pub proof fn law_a_span_is_told_in_seconds(seconds: nat)
    ensures
        seconds > 0 ==> span_text(seconds) == strings::decimal(seconds) + "s"@,
        seconds == 0 ==> span_text(seconds) == "0ns"@,
{
}

} // verus!
