//! The shared vocabulary of the library.
//!
//! Every module either builds part of a [`Digest`] or renders one. Two rules
//! run through the types:
//!
//! 1. **Absent and broken are different.** `None` means "not reported", never
//!    "zero". Anything that went wrong carries its own message in a `problems`
//!    list and is rendered.
//! 2. **Quiet is a state, not an omission.** A checkout with nothing in the
//!    window is still present in the digest, marked [`Activity::Quiet`].
//!
//! A type whose only variable-length parts are strings is generic in the type
//! of its text, so that one declaration serves both the values a program holds
//! (`Stamp`, which is `Stamp<String>`) and their views (`Stamp<Seq<char>>`). A
//! type that holds a list has a view type of its own.

use vstd::prelude::*;

use crate::strings;

verus! {

/// The characters of a string: what every contract speaks of.
pub type Text = Seq<char>;

/// Canonical identity of a repository: its absolute common git directory,
/// shared by every linked worktree of the same repository.
#[derive(Debug, PartialEq, Eq, PartialOrd, Ord, Hash)]
pub struct RepoKey<T = String>(pub T);

impl View for RepoKey {
    type V = RepoKey<Text>;

    open spec fn view(&self) -> RepoKey<Text> {
        RepoKey(self.0@)
    }
}

impl Clone for RepoKey {
    fn clone(&self) -> (out: Self)
        ensures
            out@ == self@,
    {
        RepoKey(self.0.clone())
    }
}

impl RepoKey {
    pub fn as_str(&self) -> (out: &str)
        ensures
            out@ == self@.0,
    {
        self.0.as_str()
    }
}

// ---------------------------------------------------------------------------
// Time
// ---------------------------------------------------------------------------

/// An instant, carried as both the machine value and the exact local rendering.
///
/// `epoch` is what git was given, `local` is what the reader is shown, and
/// `zone` names the zone `local` is expressed in.
#[derive(Debug, PartialEq, Eq)]
pub struct Stamp<T = String> {
    /// Seconds since the Unix epoch.
    pub epoch: i64,
    /// `YYYY-MM-DD HH:MM` in the local zone.
    pub local: T,
    /// Zone abbreviation and offset, e.g. `CEST +0200`.
    pub zone: T,
    /// Seconds east of UTC, when the instant could be placed in the local zone.
    pub offset_seconds: Option<i64>,
}

impl View for Stamp {
    type V = Stamp<Text>;

    open spec fn view(&self) -> Stamp<Text> {
        Stamp {
            epoch: self.epoch,
            local: self.local@,
            zone: self.zone@,
            offset_seconds: self.offset_seconds,
        }
    }
}

impl Clone for Stamp {
    fn clone(&self) -> (out: Self)
        ensures
            out@ == self@,
    {
        Stamp {
            epoch: self.epoch,
            local: self.local.clone(),
            zone: self.zone.clone(),
            offset_seconds: self.offset_seconds,
        }
    }
}

impl Stamp<Text> {
    /// `2026-08-15 09:12 CEST +0200`: the unambiguous form.
    pub open spec fn full(self) -> Text {
        self.local + " "@ + self.zone
    }
}

impl Stamp {
    /// `2026-08-15 09:12 CEST +0200`: the unambiguous form, for headers.
    pub fn full(&self) -> (out: String)
        ensures
            out@ == self@.full(),
    {
        strings::cat3(self.local.as_str(), " ", self.zone.as_str())
    }
}

/// A calendar period that a rollup covers.
#[derive(Debug, Clone, Copy, PartialEq, Eq, Structural)]
pub enum Period {
    Week,
    Month,
}

impl Period {
    pub open spec fn flag_text(self) -> Text {
        match self {
            Period::Week => "--weekly"@,
            Period::Month => "--monthly"@,
        }
    }

    pub open spec fn noun_text(self) -> Text {
        match self {
            Period::Week => "week"@,
            Period::Month => "month"@,
        }
    }

    /// The option that asks for this period.
    pub fn flag(self) -> (out: &'static str)
        ensures
            out@ == self.flag_text(),
    {
        match self {
            Period::Week => "--weekly",
            Period::Month => "--monthly",
        }
    }

    pub fn noun(self) -> (out: &'static str)
        ensures
            out@ == self.noun_text(),
    {
        match self {
            Period::Week => "week",
            Period::Month => "month",
        }
    }
}

/// How the reporting window was chosen. Rendered, because "you asked for
/// today" and "this is the first run so today is shown" are different answers
/// to "why is this empty".
#[derive(Debug, PartialEq, Eq)]
pub enum WindowSource<T = String> {
    /// The built-in default: local midnight today.
    Default,
    /// An explicit start that the user typed.
    Explicit { spec: T },
    /// Since the last digest, with a previous run on record.
    SinceLast { previous_run: Stamp<T> },
    /// Since the last digest, with no previous run recorded.
    SinceLastFirstRun,
    /// A calendar period, from its start to now.
    Rollup { period: Period },
}

impl View for WindowSource {
    type V = WindowSource<Text>;

    open spec fn view(&self) -> WindowSource<Text> {
        match self {
            WindowSource::Default => WindowSource::Default,
            WindowSource::Explicit { spec } => WindowSource::Explicit { spec: spec@ },
            WindowSource::SinceLast { previous_run } => WindowSource::SinceLast {
                previous_run: previous_run@,
            },
            WindowSource::SinceLastFirstRun => WindowSource::SinceLastFirstRun,
            WindowSource::Rollup { period } => WindowSource::Rollup { period: *period },
        }
    }
}

impl Clone for WindowSource {
    fn clone(&self) -> (out: Self)
        ensures
            out@ == self@,
    {
        match self {
            WindowSource::Default => WindowSource::Default,
            WindowSource::Explicit { spec } => WindowSource::Explicit { spec: spec.clone() },
            WindowSource::SinceLast { previous_run } => WindowSource::SinceLast {
                previous_run: previous_run.clone(),
            },
            WindowSource::SinceLastFirstRun => WindowSource::SinceLastFirstRun,
            WindowSource::Rollup { period } => WindowSource::Rollup { period: *period },
        }
    }
}

/// The reporting period, resolved to absolute instants before any commit is
/// read.
#[derive(Debug, PartialEq, Eq)]
pub struct Window<T = String> {
    pub since: Stamp<T>,
    /// `None` means "up to now", which is the normal case.
    pub until: Option<Stamp<T>>,
    pub source: WindowSource<T>,
}

impl View for Window {
    type V = Window<Text>;

    open spec fn view(&self) -> Window<Text> {
        Window {
            since: self.since@,
            until: strings::view_of(self.until),
            source: self.source@,
        }
    }
}

impl Clone for Window {
    fn clone(&self) -> (out: Self)
        ensures
            out@ == self@,
    {
        Window {
            since: self.since.clone(),
            until: strings::clone_option(&self.until),
            source: self.source.clone(),
        }
    }
}

// ---------------------------------------------------------------------------
// Where the agents sit
// ---------------------------------------------------------------------------

/// An agent reported in a pane.
///
/// The digest carries the agent's name and program everywhere, and its session
/// id only in the machine-readable output.
#[derive(Debug, PartialEq, Eq)]
pub struct AgentRef<T = String> {
    /// The user's label for the agent.
    pub name: Option<T>,
    /// The program, e.g. `opencode`.
    pub program: Option<T>,
    /// Opaque session id, machine-readable output only.
    pub session_id: Option<T>,
    pub pane_id: T,
    /// Per-pane status, e.g. `working`.
    pub status: Option<T>,
    /// The directory this agent was working in, when it is known.
    pub cwd: Option<T>,
}

impl View for AgentRef {
    type V = AgentRef<Text>;

    open spec fn view(&self) -> AgentRef<Text> {
        AgentRef {
            name: strings::view_of(self.name),
            program: strings::view_of(self.program),
            session_id: strings::view_of(self.session_id),
            pane_id: self.pane_id@,
            status: strings::view_of(self.status),
            cwd: strings::view_of(self.cwd),
        }
    }
}

impl Clone for AgentRef {
    fn clone(&self) -> (out: Self)
        ensures
            out@ == self@,
    {
        AgentRef {
            name: strings::clone_option(&self.name),
            program: strings::clone_option(&self.program),
            session_id: strings::clone_option(&self.session_id),
            pane_id: self.pane_id.clone(),
            status: strings::clone_option(&self.status),
            cwd: strings::clone_option(&self.cwd),
        }
    }
}

impl AgentRef<Text> {
    /// The user's label, else the program, unless what was chosen is empty.
    pub open spec fn display(self) -> Option<Text> {
        let chosen = if self.name is Some {
            self.name
        } else {
            self.program
        };
        if chosen is Some && chosen->0.len() > 0 {
            chosen
        } else {
            None
        }
    }
}

impl AgentRef {
    /// Best display name: the user's label, else the program, else nothing.
    ///
    /// Not an identity: two agents can share a display name and still be two
    /// agents.
    pub fn display(&self) -> (out: Option<&str>)
        ensures
            strings::view_of(out) == self@.display(),
    {
        let chosen = match &self.name {
            Some(name) => Some(name),
            None => self.program.as_ref(),
        };
        match chosen {
            Some(name) => if name.as_str().unicode_len() > 0 {
                Some(name.as_str())
            } else {
                None
            },
            None => None,
        }
    }
}

/// A workspace that is sitting in some directories.
#[derive(Debug, PartialEq, Eq)]
pub struct WorkspaceRef {
    pub workspace_id: String,
    /// The workspace label the user sees in the sidebar.
    pub label: String,
    /// Workspace number in the sidebar, when one is reported.
    pub number: Option<u64>,
    /// Directories occupied by this workspace's panes, plus its tracked
    /// checkout path if it has one.
    pub paths: Vec<String>,
    /// Agents reported in this workspace.
    pub agents: Vec<AgentRef>,
    pub agent_status: Option<String>,
}

#[verifier::ext_equal]
pub struct WorkspaceView {
    pub workspace_id: Text,
    pub label: Text,
    pub number: Option<u64>,
    pub paths: Seq<Text>,
    pub agents: Seq<AgentRef<Text>>,
    pub agent_status: Option<Text>,
}

impl View for WorkspaceRef {
    type V = WorkspaceView;

    open spec fn view(&self) -> WorkspaceView {
        WorkspaceView {
            workspace_id: self.workspace_id@,
            label: self.label@,
            number: self.number,
            paths: strings::views(self.paths@),
            agents: strings::views(self.agents@),
            agent_status: strings::view_of(self.agent_status),
        }
    }
}

impl Clone for WorkspaceRef {
    fn clone(&self) -> (out: Self)
        ensures
            out@ == self@,
    {
        WorkspaceRef {
            workspace_id: self.workspace_id.clone(),
            label: self.label.clone(),
            number: self.number,
            paths: strings::clone_list(&self.paths),
            agents: strings::clone_list(&self.agents),
            agent_status: strings::clone_option(&self.agent_status),
        }
    }
}

// ---------------------------------------------------------------------------
// What git says
// ---------------------------------------------------------------------------

/// What HEAD is, which decides how much of the rest is even meaningful.
#[derive(Debug, PartialEq, Eq)]
pub enum Head<T = String> {
    /// On a branch, with a commit.
    Branch { name: T, oid: T },
    /// Detached at a commit.
    Detached { oid: T },
    /// A branch is pointed at but has no commits yet, and the worktree has no
    /// HEAD reflog.
    Unborn { name: T },
    /// A branch is pointed at, it does not resolve, but the worktree has a HEAD
    /// reflog: the branch was deleted underneath a live checkout.
    BranchDeleted { name: T },
}

impl View for Head {
    type V = Head<Text>;

    open spec fn view(&self) -> Head<Text> {
        match self {
            Head::Branch { name, oid } => Head::Branch { name: name@, oid: oid@ },
            Head::Detached { oid } => Head::Detached { oid: oid@ },
            Head::Unborn { name } => Head::Unborn { name: name@ },
            Head::BranchDeleted { name } => Head::BranchDeleted { name: name@ },
        }
    }
}

impl Clone for Head {
    fn clone(&self) -> (out: Self)
        ensures
            out@ == self@,
    {
        match self {
            Head::Branch { name, oid } => Head::Branch { name: name.clone(), oid: oid.clone() },
            Head::Detached { oid } => Head::Detached { oid: oid.clone() },
            Head::Unborn { name } => Head::Unborn { name: name.clone() },
            Head::BranchDeleted { name } => Head::BranchDeleted { name: name.clone() },
        }
    }
}

impl Head<Text> {
    pub open spec fn branch_name(self) -> Option<Text> {
        match self {
            Head::Branch { name, .. } | Head::Unborn { name } | Head::BranchDeleted { name } => Some(
                name,
            ),
            Head::Detached { .. } => None,
        }
    }

    pub open spec fn oid(self) -> Option<Text> {
        match self {
            Head::Branch { oid, .. } | Head::Detached { oid } => Some(oid),
            Head::Unborn { .. } | Head::BranchDeleted { .. } => None,
        }
    }
}

impl Head {
    pub fn branch_name(&self) -> (out: Option<&str>)
        ensures
            strings::view_of(out) == self@.branch_name(),
    {
        match self {
            Head::Branch { name, .. } | Head::Unborn { name } | Head::BranchDeleted { name } => Some(
                name.as_str(),
            ),
            Head::Detached { .. } => None,
        }
    }

    pub fn oid(&self) -> (out: Option<&str>)
        ensures
            strings::view_of(out) == self@.oid(),
    {
        match self {
            Head::Branch { oid, .. } | Head::Detached { oid } => Some(oid.as_str()),
            Head::Unborn { .. } | Head::BranchDeleted { .. } => None,
        }
    }
}

/// How many bytes of an object id renderers show.
pub const OID_COLUMNS: usize = 8;

/// One commit inside the window.
#[derive(Debug, PartialEq, Eq)]
pub struct Commit {
    /// Full object id. Renderers abbreviate; the data keeps it whole.
    pub oid: String,
    pub author: String,
    /// Commit time, local: the instant the window filters on.
    pub committed: Stamp,
    /// First line of the message, with no trailing whitespace.
    pub subject: String,
    /// True for a commit with more than one parent. Merges count toward the
    /// commit total and not toward churn.
    pub is_merge: bool,
    pub insertions: u64,
    pub deletions: u64,
    /// Paths this commit touched. Empty for a merge.
    pub files: Vec<String>,
}

#[verifier::ext_equal]
pub struct CommitView {
    pub oid: Text,
    pub author: Text,
    pub committed: Stamp<Text>,
    pub subject: Text,
    pub is_merge: bool,
    pub insertions: u64,
    pub deletions: u64,
    pub files: Seq<Text>,
}

impl View for Commit {
    type V = CommitView;

    open spec fn view(&self) -> CommitView {
        CommitView {
            oid: self.oid@,
            author: self.author@,
            committed: self.committed@,
            subject: self.subject@,
            is_merge: self.is_merge,
            insertions: self.insertions,
            deletions: self.deletions,
            files: strings::views(self.files@),
        }
    }
}

impl Clone for Commit {
    fn clone(&self) -> (out: Self)
        ensures
            out@ == self@,
    {
        Commit {
            oid: self.oid.clone(),
            author: self.author.clone(),
            committed: self.committed.clone(),
            subject: self.subject.clone(),
            is_merge: self.is_merge,
            insertions: self.insertions,
            deletions: self.deletions,
            files: strings::clone_list(&self.files),
        }
    }
}

impl Commit {
    /// The abbreviation renderers show. Fixed at eight, because a digest is
    /// read as a column and a variable-width id ruins the alignment.
    pub fn short_oid(&self) -> (out: String)
        ensures
            out@ == strings::leading(self@.oid, OID_COLUMNS as nat),
    {
        strings::leading_bytes(self.oid.as_str(), OID_COLUMNS)
    }
}

/// Aggregate change volume. `files` is the size of the *union* of touched
/// paths, so a file edited in five commits counts once.
#[derive(Debug, Clone, Copy, PartialEq, Eq, Structural)]
pub struct Churn {
    pub files: usize,
    /// How many of `files` are ignored paths, which contribute no lines.
    pub excluded: usize,
    pub insertions: u64,
    pub deletions: u64,
}

impl Default for Churn {
    fn default() -> (out: Self)
        ensures
            out == Churn::nothing(),
    {
        Churn { files: 0, excluded: 0, insertions: 0, deletions: 0 }
    }
}

impl Churn {
    pub open spec fn nothing() -> Churn {
        Churn { files: 0, excluded: 0, insertions: 0, deletions: 0 }
    }

    pub open spec fn zero(self) -> bool {
        self.files == 0 && self.insertions == 0 && self.deletions == 0
    }

    /// The two volumes added up, count by count, in machine words.
    pub open spec fn plus(self, other: Churn) -> Churn {
        Churn {
            files: self.files.wrapping_add(other.files),
            excluded: self.excluded.wrapping_add(other.excluded),
            insertions: self.insertions.wrapping_add(other.insertions),
            deletions: self.deletions.wrapping_add(other.deletions),
        }
    }

    pub fn is_zero(&self) -> (answer: bool)
        ensures
            answer == self.zero(),
    {
        self.files == 0 && self.insertions == 0 && self.deletions == 0
    }

    pub fn add(&mut self, other: Churn)
        ensures
            *final(self) == old(self).plus(other),
    {
        self.files = self.files.wrapping_add(other.files);
        self.excluded = self.excluded.wrapping_add(other.excluded);
        self.insertions = self.insertions.wrapping_add(other.insertions);
        self.deletions = self.deletions.wrapping_add(other.deletions);
    }
}

/// Uncommitted work sitting in the checkout right now. Reported as a
/// present-tense fact, separately from the window.
#[derive(Debug, Clone, Copy, PartialEq, Eq, Structural)]
pub struct Dirty {
    pub tracked_changed: usize,
    pub untracked: usize,
    pub conflicted: usize,
    pub insertions: u64,
    pub deletions: u64,
}

impl View for Dirty {
    type V = Dirty;

    open spec fn view(&self) -> Dirty {
        *self
    }
}

impl Default for Dirty {
    fn default() -> (out: Self)
        ensures
            out == Dirty::nothing(),
    {
        Dirty { tracked_changed: 0, untracked: 0, conflicted: 0, insertions: 0, deletions: 0 }
    }
}

impl Dirty {
    pub open spec fn nothing() -> Dirty {
        Dirty { tracked_changed: 0, untracked: 0, conflicted: 0, insertions: 0, deletions: 0 }
    }

    pub open spec fn clean(self) -> bool {
        self.tracked_changed == 0 && self.untracked == 0 && self.conflicted == 0
    }

    pub fn is_clean(&self) -> (answer: bool)
        ensures
            answer == self.clean(),
    {
        self.tracked_changed == 0 && self.untracked == 0 && self.conflicted == 0
    }
}

/// Upstream tracking state for the checked-out branch.
#[derive(Debug, PartialEq, Eq)]
pub enum Tracking<T = String> {
    /// No branch, so tracking is not a question that applies.
    NotApplicable,
    /// A branch with no configured upstream.
    NoUpstream,
    /// An upstream is configured but does not resolve.
    UpstreamMissing { name: T },
    Upstream { name: T, ahead: u64, behind: u64 },
}

impl View for Tracking {
    type V = Tracking<Text>;

    open spec fn view(&self) -> Tracking<Text> {
        match self {
            Tracking::NotApplicable => Tracking::NotApplicable,
            Tracking::NoUpstream => Tracking::NoUpstream,
            Tracking::UpstreamMissing { name } => Tracking::UpstreamMissing { name: name@ },
            Tracking::Upstream { name, ahead, behind } => Tracking::Upstream {
                name: name@,
                ahead: *ahead,
                behind: *behind,
            },
        }
    }
}

impl Clone for Tracking {
    fn clone(&self) -> (out: Self)
        ensures
            out@ == self@,
    {
        match self {
            Tracking::NotApplicable => Tracking::NotApplicable,
            Tracking::NoUpstream => Tracking::NoUpstream,
            Tracking::UpstreamMissing { name } => Tracking::UpstreamMissing { name: name.clone() },
            Tracking::Upstream { name, ahead, behind } => Tracking::Upstream {
                name: name.clone(),
                ahead: *ahead,
                behind: *behind,
            },
        }
    }
}

/// Which probe found the equivalent patch, and what it found.
#[derive(Debug, PartialEq, Eq)]
pub enum Equivalence<T = String> {
    /// Every commit on the branch has a twin by patch on the default branch.
    EveryCommit { commits: u64 },
    /// One commit on the default branch carries the patch of this branch's
    /// whole diff against the merge base.
    Squashed { oid: T },
}

impl View for Equivalence {
    type V = Equivalence<Text>;

    open spec fn view(&self) -> Equivalence<Text> {
        match self {
            Equivalence::EveryCommit { commits } => Equivalence::EveryCommit { commits: *commits },
            Equivalence::Squashed { oid } => Equivalence::Squashed { oid: oid@ },
        }
    }
}

impl Clone for Equivalence {
    fn clone(&self) -> (out: Self)
        ensures
            out@ == self@,
    {
        match self {
            Equivalence::EveryCommit { commits } => Equivalence::EveryCommit { commits: *commits },
            Equivalence::Squashed { oid } => Equivalence::Squashed { oid: oid.clone() },
        }
    }
}

/// Whether the work has landed on the repository's default branch.
///
/// `Merged` is containment, which is exact. `Equivalent` is a matching patch,
/// which is all that survives a squash or a rebase merge.
#[derive(Debug, PartialEq, Eq)]
pub enum Landed<T = String> {
    /// This checkout *is* the default branch.
    IsDefault { name: T },
    /// HEAD is an ancestor of the default branch.
    Merged { into: T },
    /// HEAD is not an ancestor of the default branch, but the same patch is on
    /// it under another id.
    Equivalent { into: T, how: Equivalence<T> },
    /// HEAD is not an ancestor of the default branch and no equivalent patch
    /// was found on it either.
    NotMerged { into: T },
    /// No default branch could be identified, or HEAD has no commit.
    Unknown { reason: T },
}

impl View for Landed {
    type V = Landed<Text>;

    open spec fn view(&self) -> Landed<Text> {
        match self {
            Landed::IsDefault { name } => Landed::IsDefault { name: name@ },
            Landed::Merged { into } => Landed::Merged { into: into@ },
            Landed::Equivalent { into, how } => Landed::Equivalent { into: into@, how: how@ },
            Landed::NotMerged { into } => Landed::NotMerged { into: into@ },
            Landed::Unknown { reason } => Landed::Unknown { reason: reason@ },
        }
    }
}

impl Clone for Landed {
    fn clone(&self) -> (out: Self)
        ensures
            out@ == self@,
    {
        match self {
            Landed::IsDefault { name } => Landed::IsDefault { name: name.clone() },
            Landed::Merged { into } => Landed::Merged { into: into.clone() },
            Landed::Equivalent { into, how } => Landed::Equivalent {
                into: into.clone(),
                how: how.clone(),
            },
            Landed::NotMerged { into } => Landed::NotMerged { into: into.clone() },
            Landed::Unknown { reason } => Landed::Unknown { reason: reason.clone() },
        }
    }
}

/// Commits that exist in this checkout and on no remote.
#[derive(Debug, PartialEq, Eq)]
pub enum Unpushed<T = String> {
    Commits { count: u64 },
    /// There is no remote for the work to have been pushed to.
    NoRemote,
    /// The question could not be answered.
    Unknown { reason: T },
}

impl View for Unpushed {
    type V = Unpushed<Text>;

    open spec fn view(&self) -> Unpushed<Text> {
        match self {
            Unpushed::Commits { count } => Unpushed::Commits { count: *count },
            Unpushed::NoRemote => Unpushed::NoRemote,
            Unpushed::Unknown { reason } => Unpushed::Unknown { reason: reason@ },
        }
    }
}

impl Clone for Unpushed {
    fn clone(&self) -> (out: Self)
        ensures
            out@ == self@,
    {
        match self {
            Unpushed::Commits { count } => Unpushed::Commits { count: *count },
            Unpushed::NoRemote => Unpushed::NoRemote,
            Unpushed::Unknown { reason } => Unpushed::Unknown { reason: reason.clone() },
        }
    }
}

impl Unpushed<Text> {
    /// How many commits would be lost with the checkout.
    pub open spec fn at_risk(self) -> u64 {
        match self {
            Unpushed::Commits { count } => count,
            _ => 0,
        }
    }
}

impl Unpushed {
    /// How many commits would be lost with the checkout. Zero where nothing is
    /// known to be at risk.
    pub fn at_risk(&self) -> (count: u64)
        ensures
            count == self@.at_risk(),
    {
        match self {
            Unpushed::Commits { count } => *count,
            _ => 0,
        }
    }
}

/// How much a checkout has to say. The order matters: renderers sort busiest
/// first, and `Broken` sorts to the top of everything, so a failure is never
/// buried under quiet workspaces.
#[derive(Debug, Clone, Copy, PartialEq, Eq, PartialOrd, Ord, Structural)]
pub enum Activity {
    /// Nothing in the window, nothing uncommitted, nothing only here.
    Quiet,
    /// Commits on no remote, but none in the window.
    Unpushed,
    /// Uncommitted changes but no commits in the window.
    Uncommitted,
    /// Commits in the window.
    Active,
    /// git could not be read here. Rendered loudly.
    Broken,
}

impl Activity {
    pub open spec fn rank(self) -> int {
        match self {
            Activity::Quiet => 0,
            Activity::Unpushed => 1,
            Activity::Uncommitted => 2,
            Activity::Active => 3,
            Activity::Broken => 4,
        }
    }

    pub open spec fn louder(self, other: Activity) -> Activity {
        if self.rank() < other.rank() {
            other
        } else {
            self
        }
    }

    /// Where this state stands in the order, from the quietest up.
    pub fn level(self) -> (n: u8)
        ensures
            n == self.rank(),
    {
        match self {
            Activity::Quiet => 0,
            Activity::Unpushed => 1,
            Activity::Uncommitted => 2,
            Activity::Active => 3,
            Activity::Broken => 4,
        }
    }
}

/// Everything known about one checkout over the window.
#[derive(Debug, PartialEq, Eq)]
pub struct CheckoutReport {
    /// The checkout root, as git resolves it.
    pub path: String,
    pub repo_key: RepoKey,
    pub repo_root: String,
    pub is_linked_worktree: bool,
    pub head: Head,
    pub commits: Vec<Commit>,
    pub churn: Churn,
    pub dirty: Dirty,
    pub tracking: Tracking,
    pub landed: Landed,
    pub unpushed: Unpushed,
    /// Things that went wrong while reading this checkout. Non-empty means the
    /// numbers above are incomplete, and every renderer must show it.
    pub problems: Vec<String>,
}

#[verifier::ext_equal]
pub struct ReportView {
    pub path: Text,
    pub repo_key: RepoKey<Text>,
    pub repo_root: Text,
    pub is_linked_worktree: bool,
    pub head: Head<Text>,
    pub commits: Seq<CommitView>,
    pub churn: Churn,
    pub dirty: Dirty,
    pub tracking: Tracking<Text>,
    pub landed: Landed<Text>,
    pub unpushed: Unpushed<Text>,
    pub problems: Seq<Text>,
}

impl View for CheckoutReport {
    type V = ReportView;

    open spec fn view(&self) -> ReportView {
        ReportView {
            path: self.path@,
            repo_key: self.repo_key@,
            repo_root: self.repo_root@,
            is_linked_worktree: self.is_linked_worktree,
            head: self.head@,
            commits: strings::views(self.commits@),
            churn: self.churn,
            dirty: self.dirty,
            tracking: self.tracking@,
            landed: self.landed@,
            unpushed: self.unpushed@,
            problems: strings::views(self.problems@),
        }
    }
}

impl Clone for CheckoutReport {
    fn clone(&self) -> (out: Self)
        ensures
            out@ == self@,
    {
        CheckoutReport {
            path: self.path.clone(),
            repo_key: self.repo_key.clone(),
            repo_root: self.repo_root.clone(),
            is_linked_worktree: self.is_linked_worktree,
            head: self.head.clone(),
            commits: strings::clone_list(&self.commits),
            churn: self.churn,
            dirty: self.dirty,
            tracking: self.tracking.clone(),
            landed: self.landed.clone(),
            unpushed: self.unpushed.clone(),
            problems: strings::clone_list(&self.problems),
        }
    }
}

/// The commit authors, empty names left out, each once, in the order in which
/// they first occur.
pub open spec fn authors_of(commits: Seq<CommitView>) -> Seq<Text>
    decreases commits.len(),
{
    if commits.len() == 0 {
        Seq::empty()
    } else {
        let seen = authors_of(commits.drop_last());
        let author = commits.last().author;
        if author.len() > 0 && !seen.contains(author) {
            seen.push(author)
        } else {
            seen
        }
    }
}

impl ReportView {
    /// A branch deleted underneath a live checkout is somebody's work about to
    /// be lost, so it counts as broken beside the failures.
    pub open spec fn activity(self) -> Activity {
        if self.problems.len() > 0 || self.head is BranchDeleted {
            Activity::Broken
        } else if self.commits.len() > 0 {
            Activity::Active
        } else if !self.dirty.clean() {
            Activity::Uncommitted
        } else if self.unpushed.at_risk() > 0 {
            Activity::Unpushed
        } else {
            Activity::Quiet
        }
    }
}

impl CheckoutReport {
    pub fn activity(&self) -> (out: Activity)
        ensures
            out == self@.activity(),
    {
        let deleted = match &self.head {
            Head::BranchDeleted { .. } => true,
            _ => false,
        };
        if self.problems.len() > 0 || deleted {
            Activity::Broken
        } else if self.commits.len() > 0 {
            Activity::Active
        } else if !self.dirty.is_clean() {
            Activity::Uncommitted
        } else if self.unpushed.at_risk() > 0 {
            Activity::Unpushed
        } else {
            Activity::Quiet
        }
    }

    /// Distinct commit authors in the window, first-seen order.
    pub fn authors(&self) -> (out: Vec<String>)
        ensures
            strings::views(out@) == authors_of(self@.commits),
    {
        broadcast use strings::group_lists;

        let mut seen: Vec<String> = Vec::new();
        for i in 0..self.commits.len()
            invariant
                strings::views(seen@) == authors_of(strings::views(self.commits@).take(i as int)),
        {
            broadcast use strings::group_lists;

            let ghost all = strings::views(self.commits@);
            assert(all.take(i as int).push(all[i as int]) == all.take(i + 1));
            let author = &self.commits[i].author;
            if author.as_str().unicode_len() > 0 && !strings::list_has(&seen, author.as_str()) {
                seen.push(author.clone());
            }
        }
        seen
    }
}

// ---------------------------------------------------------------------------
// The digest
// ---------------------------------------------------------------------------

/// One checkout, with the workspaces that were sitting in it.
#[derive(Debug, PartialEq, Eq)]
pub struct CheckoutDigest {
    pub report: CheckoutReport,
    /// Workspaces whose panes were in this checkout: the roster, not the
    /// attribution.
    pub workspaces: Vec<WorkspaceRef>,
    /// The agents placed in this checkout, in pane order, one entry per pane.
    pub agents: Vec<AgentRef>,
}

#[verifier::ext_equal]
pub struct CheckoutView {
    pub report: ReportView,
    pub workspaces: Seq<WorkspaceView>,
    pub agents: Seq<AgentRef<Text>>,
}

impl View for CheckoutDigest {
    type V = CheckoutView;

    open spec fn view(&self) -> CheckoutView {
        CheckoutView {
            report: self.report@,
            workspaces: strings::views(self.workspaces@),
            agents: strings::views(self.agents@),
        }
    }
}

impl Clone for CheckoutDigest {
    fn clone(&self) -> (out: Self)
        ensures
            out@ == self@,
    {
        CheckoutDigest {
            report: self.report.clone(),
            workspaces: strings::clone_list(&self.workspaces),
            agents: strings::clone_list(&self.agents),
        }
    }
}

/// One repository, with its checkouts nested inside.
#[derive(Debug, PartialEq, Eq)]
pub struct RepoDigest {
    pub repo_key: RepoKey,
    /// Display name: the last component of the repository root.
    pub name: String,
    pub repo_root: String,
    pub checkouts: Vec<CheckoutDigest>,
    /// Distinct commits over the checkouts.
    pub commits: usize,
    pub churn: Churn,
    /// Distinct local days on which those commits were made.
    pub active_days: usize,
}

#[verifier::ext_equal]
pub struct RepoView {
    pub repo_key: RepoKey<Text>,
    pub name: Text,
    pub repo_root: Text,
    pub checkouts: Seq<CheckoutView>,
    pub commits: usize,
    pub churn: Churn,
    pub active_days: usize,
}

impl View for RepoDigest {
    type V = RepoView;

    open spec fn view(&self) -> RepoView {
        RepoView {
            repo_key: self.repo_key@,
            name: self.name@,
            repo_root: self.repo_root@,
            checkouts: strings::views(self.checkouts@),
            commits: self.commits,
            churn: self.churn,
            active_days: self.active_days,
        }
    }
}

impl Clone for RepoDigest {
    fn clone(&self) -> (out: Self)
        ensures
            out@ == self@,
    {
        RepoDigest {
            repo_key: self.repo_key.clone(),
            name: self.name.clone(),
            repo_root: self.repo_root.clone(),
            checkouts: strings::clone_list(&self.checkouts),
            commits: self.commits,
            churn: self.churn,
            active_days: self.active_days,
        }
    }
}

/// The loudest activity among the checkouts, quiet where there are none.
pub open spec fn loudest(checkouts: Seq<CheckoutView>) -> Activity
    decreases checkouts.len(),
{
    if checkouts.len() == 0 {
        Activity::Quiet
    } else {
        loudest(checkouts.drop_last()).louder(checkouts.last().report.activity())
    }
}

impl RepoView {
    pub open spec fn activity(self) -> Activity {
        loudest(self.checkouts)
    }
}

impl RepoDigest {
    pub fn activity(&self) -> (out: Activity)
        ensures
            out == self@.activity(),
    {
        broadcast use strings::group_lists;

        let mut out = Activity::Quiet;
        for i in 0..self.checkouts.len()
            invariant
                out == loudest(strings::views(self.checkouts@).take(i as int)),
        {
            broadcast use strings::group_lists;

            let ghost all = strings::views(self.checkouts@);
            assert(all.take(i as int).push(all[i as int]) == all.take(i + 1));
            let here = self.checkouts[i].report.activity();
            if out.level() < here.level() {
                out = here;
            }
        }
        out
    }
}

#[derive(Debug, Clone, Copy, PartialEq, Eq, Structural)]
pub enum Severity {
    Info,
    Warning,
}

/// Something to say that is not attributable to a single checkout. Always
/// rendered.
#[derive(Debug, PartialEq, Eq)]
pub struct Note<T = String> {
    pub severity: Severity,
    pub message: T,
}

impl View for Note {
    type V = Note<Text>;

    open spec fn view(&self) -> Note<Text> {
        Note { severity: self.severity, message: self.message@ }
    }
}

impl Clone for Note {
    fn clone(&self) -> (out: Self)
        ensures
            out@ == self@,
    {
        Note { severity: self.severity, message: self.message.clone() }
    }
}

impl Note {
    pub fn info(message: String) -> (out: Note)
        ensures
            out@ == (Note { severity: Severity::Info, message: message@ }),
    {
        Note { severity: Severity::Info, message }
    }

    pub fn warning(message: String) -> (out: Note)
        ensures
            out@ == (Note { severity: Severity::Warning, message: message@ }),
    {
        Note { severity: Severity::Warning, message }
    }
}

/// The whole report. Every renderer takes exactly this and adds nothing.
#[derive(Debug, PartialEq, Eq)]
pub struct Digest {
    /// Version of the machine-readable shape.
    pub schema: u32,
    pub generated_at: Stamp,
    pub window: Window,
    pub repos: Vec<RepoDigest>,
    pub notes: Vec<Note>,
}

/// Bumped whenever the machine-readable shape changes incompatibly.
pub const SCHEMA_VERSION: u32 = 1;

#[verifier::ext_equal]
pub struct DigestView {
    pub schema: u32,
    pub generated_at: Stamp<Text>,
    pub window: Window<Text>,
    pub repos: Seq<RepoView>,
    pub notes: Seq<Note<Text>>,
}

impl View for Digest {
    type V = DigestView;

    open spec fn view(&self) -> DigestView {
        DigestView {
            schema: self.schema,
            generated_at: self.generated_at@,
            window: self.window@,
            repos: strings::views(self.repos@),
            notes: strings::views(self.notes@),
        }
    }
}

impl Clone for Digest {
    fn clone(&self) -> (out: Self)
        ensures
            out@ == self@,
    {
        Digest {
            schema: self.schema,
            generated_at: self.generated_at.clone(),
            window: self.window.clone(),
            repos: strings::clone_list(&self.repos),
            notes: strings::clone_list(&self.notes),
        }
    }
}

/// The commit counts of the repositories added up, in machine words.
pub open spec fn commit_total(repos: Seq<RepoView>) -> usize
    decreases repos.len(),
{
    if repos.len() == 0 {
        0
    } else {
        commit_total(repos.drop_last()).wrapping_add(repos.last().commits)
    }
}

/// The volumes of the repositories added up.
pub open spec fn churn_total(repos: Seq<RepoView>) -> Churn
    decreases repos.len(),
{
    if repos.len() == 0 {
        Churn::nothing()
    } else {
        churn_total(repos.drop_last()).plus(repos.last().churn)
    }
}

pub open spec fn quiet_among(repos: Seq<RepoView>) -> Seq<RepoView> {
    repos.filter(|repo: RepoView| repo.activity() == Activity::Quiet)
}

pub open spec fn busy_among(repos: Seq<RepoView>) -> Seq<RepoView> {
    repos.filter(|repo: RepoView| repo.activity() != Activity::Quiet)
}

/// The commit counts of these repositories added up.
pub fn total_commits_of(repos: &Vec<RepoDigest>) -> (out: usize)
    ensures
        out == commit_total(strings::views(repos@)),
{
    broadcast use strings::group_lists;

    let mut out: usize = 0;
    for i in 0..repos.len()
        invariant
            out == commit_total(strings::views(repos@).take(i as int)),
    {
        broadcast use strings::group_lists;

        let ghost all = strings::views(repos@);
        assert(all.take(i as int).push(all[i as int]) == all.take(i + 1));
        out = out.wrapping_add(repos[i].commits);
    }
    out
}

/// The volumes of these repositories added up.
pub fn total_churn_of(repos: &Vec<RepoDigest>) -> (out: Churn)
    ensures
        out == churn_total(strings::views(repos@)),
{
    broadcast use strings::group_lists;

    let mut out = Churn::default();
    for i in 0..repos.len()
        invariant
            out == churn_total(strings::views(repos@).take(i as int)),
    {
        broadcast use strings::group_lists;

        let ghost all = strings::views(repos@);
        assert(all.take(i as int).push(all[i as int]) == all.take(i + 1));
        out.add(repos[i].churn);
    }
    out
}

/// Those of the repositories that have nothing to report, in order.
pub fn quiet_of<'a>(repos: &Vec<&'a RepoDigest>) -> (out: Vec<&'a RepoDigest>)
    ensures
        strings::views(out@) == quiet_among(strings::views(repos@)),
{
    broadcast use strings::group_lists;

    let ghost pred = |repo: RepoView| repo.activity() == Activity::Quiet;
    let mut out: Vec<&'a RepoDigest> = Vec::new();
    proof {
        reveal(Seq::filter);
    }
    for i in 0..repos.len()
        invariant
            pred == (|repo: RepoView| repo.activity() == Activity::Quiet),
            strings::views(out@) == strings::views(repos@).take(i as int).filter(pred),
    {
        broadcast use strings::group_lists;

        reveal(Seq::filter);
        let ghost all = strings::views(repos@);
        assert(all.take(i as int).push(all[i as int]) == all.take(i + 1));
        let repo = repos[i];
        assert(repo@ == all[i as int]);
        if repo.activity().level() == 0 {
            out.push(repo);
        }
    }
    out
}

/// Those of the repositories that have something to report, in order.
pub fn busy_of<'a>(repos: &Vec<&'a RepoDigest>) -> (out: Vec<&'a RepoDigest>)
    ensures
        strings::views(out@) == busy_among(strings::views(repos@)),
{
    broadcast use strings::group_lists;

    let ghost pred = |repo: RepoView| repo.activity() != Activity::Quiet;
    let mut out: Vec<&'a RepoDigest> = Vec::new();
    proof {
        reveal(Seq::filter);
    }
    for i in 0..repos.len()
        invariant
            pred == (|repo: RepoView| repo.activity() != Activity::Quiet),
            strings::views(out@) == strings::views(repos@).take(i as int).filter(pred),
    {
        broadcast use strings::group_lists;

        reveal(Seq::filter);
        let ghost all = strings::views(repos@);
        assert(all.take(i as int).push(all[i as int]) == all.take(i + 1));
        let repo = repos[i];
        assert(repo@ == all[i as int]);
        if repo.activity().level() != 0 {
            out.push(repo);
        }
    }
    out
}

/// References to the repositories of a list, in order.
pub fn repo_refs(repos: &Vec<RepoDigest>) -> (out: Vec<&RepoDigest>)
    ensures
        strings::views(out@) == strings::views(repos@),
{
    broadcast use strings::group_lists;

    let mut out: Vec<&RepoDigest> = Vec::new();
    for i in 0..repos.len()
        invariant
            strings::views(out@) == strings::views(repos@.take(i as int)),
    {
        broadcast use strings::group_lists;

        out.push(&repos[i]);
    }
    out
}

impl Digest {
    pub fn total_commits(&self) -> (out: usize)
        ensures
            out == commit_total(self@.repos),
    {
        total_commits_of(&self.repos)
    }

    pub fn total_churn(&self) -> (out: Churn)
        ensures
            out == churn_total(self@.repos),
    {
        total_churn_of(&self.repos)
    }

    /// Repositories with nothing to report. Summarised as one line rather than
    /// dropped, so "no repositories" and "ten quiet ones" never look the same.
    pub fn quiet_repos(&self) -> (out: Vec<&RepoDigest>)
        ensures
            strings::views(out@) == quiet_among(self@.repos),
    {
        quiet_of(&repo_refs(&self.repos))
    }

    pub fn busy_repos(&self) -> (out: Vec<&RepoDigest>)
        ensures
            strings::views(out@) == busy_among(self@.repos),
    {
        busy_of(&repo_refs(&self.repos))
    }

    /// Whether no repository has anything to report.
    pub fn is_quiet(&self) -> (answer: bool)
        ensures
            answer == (busy_among(self@.repos).len() == 0),
    {
        self.busy_repos().len() == 0
    }
}

// ---------------------------------------------------------------------------
// A comparison of two digests
// ---------------------------------------------------------------------------

/// What happened to one checkout between two digests.
#[derive(Debug, Clone, Copy, PartialEq, Eq, Structural)]
pub enum Movement {
    /// Not in the earlier digest.
    Appeared { commits: usize },
    /// New commits since, and whether the work reached the trunk as well.
    Advanced { commits: usize, landed: bool },
    /// No new commits, but the work reached the trunk.
    Landed,
    /// What was only here has been pushed.
    Pushed { was_holding: u64 },
    /// No new commits, and still holding something that would be lost.
    Stalled { unpushed: u64, uncommitted: bool },
    /// Not in the later digest.
    Gone { was_holding: u64 },
    Unchanged,
}

impl View for Movement {
    type V = Movement;

    open spec fn view(&self) -> Movement {
        *self
    }
}

#[derive(Debug, PartialEq, Eq)]
pub struct RepoComparison {
    pub repo_key: RepoKey,
    pub name: String,
    /// How many more commits the later digest counts.
    pub commits: usize,
    /// Each checkout by its path, and what happened to it.
    pub checkouts: Vec<(String, Movement)>,
}

#[verifier::ext_equal]
pub struct RepoComparisonView {
    pub repo_key: RepoKey<Text>,
    pub name: Text,
    pub commits: usize,
    pub checkouts: Seq<(Text, Movement)>,
}

impl View for RepoComparison {
    type V = RepoComparisonView;

    open spec fn view(&self) -> RepoComparisonView {
        RepoComparisonView {
            repo_key: self.repo_key@,
            name: self.name@,
            commits: self.commits,
            checkouts: strings::views(self.checkouts@),
        }
    }
}

/// What changed between two digests.
#[derive(Debug, PartialEq, Eq)]
pub struct Comparison {
    pub schema: u32,
    pub before: Stamp,
    pub after: Stamp,
    pub repos: Vec<RepoComparison>,
}

#[verifier::ext_equal]
pub struct ComparisonView {
    pub schema: u32,
    pub before: Stamp<Text>,
    pub after: Stamp<Text>,
    pub repos: Seq<RepoComparisonView>,
}

impl View for Comparison {
    type V = ComparisonView;

    open spec fn view(&self) -> ComparisonView {
        ComparisonView {
            schema: self.schema,
            before: self.before@,
            after: self.after@,
            repos: strings::views(self.repos@),
        }
    }
}

/// Every repository is either among the quiet ones or among the busy ones: a
/// quiet day drops nothing.
pub proof fn law_quiet_and_busy_cover_every_repository(repos: Seq<RepoView>)
    ensures
        quiet_among(repos).len() + busy_among(repos).len() == repos.len(),
        forall|i: int|
            0 <= i < repos.len() ==> quiet_among(repos).contains(#[trigger] repos[i])
                || busy_among(repos).contains(repos[i]),
    decreases repos.len(),
{
    reveal(Seq::filter);
    if repos.len() > 0 {
        let rest = repos.drop_last();
        law_quiet_and_busy_cover_every_repository(rest);
        assert forall|i: int| 0 <= i < repos.len() implies quiet_among(repos).contains(
            #[trigger] repos[i],
        ) || busy_among(repos).contains(repos[i]) by {
            let quiet = quiet_among(rest);
            let busy = busy_among(rest);
            if i < rest.len() {
                assert(rest[i] == repos[i]);
                if quiet.contains(rest[i]) {
                    let at = choose|at: int| 0 <= at < quiet.len() && quiet[at] == rest[i];
                    assert(quiet_among(repos)[at] == repos[i]);
                } else {
                    let at = choose|at: int| 0 <= at < busy.len() && busy[at] == rest[i];
                    assert(busy_among(repos)[at] == repos[i]);
                }
            } else if repos[i].activity() == Activity::Quiet {
                assert(quiet_among(repos)[quiet.len() as int] == repos[i]);
            } else {
                assert(busy_among(repos)[busy.len() as int] == repos[i]);
            }
        }
    }
}

/// A repository holding a checkout with problems is never among the quiet ones.
pub proof fn law_a_failure_is_never_quiet(repos: Seq<RepoView>, repo: int, checkout: int)
    requires
        0 <= repo < repos.len(),
        0 <= checkout < repos[repo].checkouts.len(),
        repos[repo].checkouts[checkout].report.problems.len() > 0,
    ensures
        repos[repo].activity() == Activity::Broken,
        busy_among(repos).contains(repos[repo]),
{
    lemma_loudest_covers(repos[repo].checkouts, checkout);
    law_work_is_never_quiet(repos, repo, checkout);
}

/// A repository holding a checkout with something to report is never among the
/// quiet ones.
pub proof fn law_work_is_never_quiet(repos: Seq<RepoView>, repo: int, checkout: int)
    requires
        0 <= repo < repos.len(),
        0 <= checkout < repos[repo].checkouts.len(),
        repos[repo].checkouts[checkout].report.activity() != Activity::Quiet,
    ensures
        repos[repo].activity() != Activity::Quiet,
        busy_among(repos).contains(repos[repo]),
{
    lemma_loudest_covers(repos[repo].checkouts, checkout);
    law_quiet_and_busy_cover_every_repository(repos);
    if quiet_among(repos).contains(repos[repo]) {
        let pred = |repo: RepoView| repo.activity() == Activity::Quiet;
        assert(pred(repos[repo])) by {
            lemma_filter_holds(repos, pred, repos[repo]);
        }
    }
}

proof fn lemma_filter_holds<A>(items: Seq<A>, pred: spec_fn(A) -> bool, item: A)
    requires
        items.filter(pred).contains(item),
    ensures
        pred(item),
    decreases items.len(),
{
    reveal(Seq::filter);
    if items.len() > 0 {
        let rest = items.drop_last().filter(pred);
        let at = choose|at: int|
            0 <= at < items.filter(pred).len() && items.filter(pred)[at] == item;
        if at < rest.len() {
            assert(rest[at] == item);
            lemma_filter_holds(items.drop_last(), pred, item);
        }
    }
}

proof fn lemma_loudest_covers(checkouts: Seq<CheckoutView>, i: int)
    requires
        0 <= i < checkouts.len(),
    ensures
        loudest(checkouts).rank() >= checkouts[i].report.activity().rank(),
    decreases checkouts.len(),
{
    if i < checkouts.len() - 1 {
        assert(checkouts.drop_last()[i] == checkouts[i]);
        lemma_loudest_covers(checkouts.drop_last(), i);
    }
}

/// The volume of a list of repositories is the sum of theirs, field by field:
/// two lists together have what each has, and one repository has its own.
pub proof fn law_volumes_add_up(a: Seq<RepoView>, b: Seq<RepoView>, one: RepoView)
    ensures
        ({
            let both = churn_total(a + b);
            let (x, y) = (churn_total(a), churn_total(b));
            &&& both.files == x.files.wrapping_add(y.files)
            &&& both.excluded == x.excluded.wrapping_add(y.excluded)
            &&& both.insertions == x.insertions.wrapping_add(y.insertions)
            &&& both.deletions == x.deletions.wrapping_add(y.deletions)
        }),
        churn_total(seq![one]) == one.churn,
        churn_total(Seq::empty()) == (Churn { files: 0, excluded: 0, insertions: 0, deletions: 0 }),
    decreases b.len(),
{
    assert(seq![one].drop_last() =~= Seq::empty());
    assert(churn_total(seq![one].drop_last()) == Churn::nothing());
    if b.len() == 0 {
        assert(a + b =~= a);
    } else {
        law_volumes_add_up(a, b.drop_last(), one);
        assert((a + b).drop_last() =~= a + b.drop_last());
        assert((a + b).last() == b.last());
    }
}

/// The same for the numbers of commits.
pub proof fn law_commit_counts_add_up(a: Seq<RepoView>, b: Seq<RepoView>, one: RepoView)
    ensures
        commit_total(a + b) == commit_total(a).wrapping_add(commit_total(b)),
        commit_total(seq![one]) == one.commits,
        commit_total(Seq::empty()) == 0,
    decreases b.len(),
{
    assert(seq![one].drop_last() =~= Seq::empty());
    assert(commit_total(seq![one].drop_last()) == 0);
    if b.len() == 0 {
        assert(a + b =~= a);
    } else {
        law_commit_counts_add_up(a, b.drop_last(), one);
        assert((a + b).drop_last() =~= a + b.drop_last());
        assert((a + b).last() == b.last());
    }
}

/// Neither total depends on the order of the repositories.
pub proof fn law_totals_have_no_order(a: Seq<RepoView>, b: Seq<RepoView>)
    requires
        a.to_multiset() == b.to_multiset(),
    ensures
        churn_total(a) == churn_total(b),
        commit_total(a) == commit_total(b),
    decreases a.len(),
{
    broadcast use vstd::seq_lib::group_to_multiset_ensures;

    if a.len() == 0 {
        assert(b.len() == b.to_multiset().len());
        assert(a.len() == a.to_multiset().len());
        assert(a =~= b);
    } else {
        let x = a.last();
        assert(a.contains(x));
        assert(a.to_multiset().count(x) > 0);
        assert(b.contains(x));
        let k = choose|k: int| 0 <= k < b.len() && b[k] == x;
        let (head, tail) = (b.take(k), b.skip(k + 1));
        let rest = head + tail;
        assert(b =~= head + (seq![x] + tail));
        assert(b.remove(k) =~= rest);
        assert(b.remove(k).to_multiset() =~= b.to_multiset().remove(x));
        assert(a.remove(a.len() - 1) =~= a.drop_last());
        assert(a.drop_last().to_multiset() =~= a.to_multiset().remove(x));
        law_totals_have_no_order(a.drop_last(), rest);
        law_volumes_add_up(head, seq![x] + tail, x);
        law_volumes_add_up(seq![x], tail, x);
        law_volumes_add_up(head, tail, x);
        law_commit_counts_add_up(head, seq![x] + tail, x);
        law_commit_counts_add_up(seq![x], tail, x);
        law_commit_counts_add_up(head, tail, x);
    }
}

/// What a checkout is about is told by what it holds: it is broken exactly where
/// something went wrong or its branch is gone, and quiet exactly where it has
/// nothing to tell: no commit, no change, nothing that is only here.
pub proof fn law_a_checkout_is_quiet_where_it_has_nothing_to_tell(report: ReportView)
    ensures
        ({
            let wrong = report.problems.len() > 0 || report.head is BranchDeleted;
            let changed = report.dirty.tracked_changed > 0 || report.dirty.untracked > 0
                || report.dirty.conflicted > 0;
            let risky = report.unpushed is Commits && report.unpushed->count > 0;
            &&& report.activity() == Activity::Broken <==> wrong
            &&& report.activity() == Activity::Active <==> !wrong && report.commits.len() > 0
            &&& report.activity() == Activity::Uncommitted <==> !wrong && report.commits.len() == 0
                && changed
            &&& report.activity() == Activity::Unpushed <==> !wrong && report.commits.len() == 0
                && !changed && risky
            &&& report.activity() == Activity::Quiet <==> !wrong && report.commits.len() == 0
                && !changed && !risky
            &&& risky ==> report.unpushed.at_risk() == report.unpushed->count
            &&& !risky ==> report.unpushed.at_risk() == 0
            &&& report.dirty.clean() <==> !changed
        }),
{
}

/// A repository is about what its loudest checkout is about.
pub proof fn law_a_repository_is_as_loud_as_its_loudest_checkout(repo: RepoView, i: int)
    ensures
        0 <= i < repo.checkouts.len() ==> repo.activity().rank()
            >= repo.checkouts[i].report.activity().rank(),
        repo.checkouts.len() > 0 ==> exists|k: int|
            0 <= k < repo.checkouts.len() && repo.activity() == (
            #[trigger] repo.checkouts[k]).report.activity(),
        repo.checkouts.len() == 0 ==> repo.activity() == Activity::Quiet,
        Activity::Broken.rank() > Activity::Active.rank(),
        Activity::Active.rank() > Activity::Uncommitted.rank(),
        Activity::Uncommitted.rank() > Activity::Unpushed.rank(),
        Activity::Unpushed.rank() > Activity::Quiet.rank(),
{
    if 0 <= i < repo.checkouts.len() {
        lemma_loudest_covers(repo.checkouts, i);
    }
    lemma_loudest_is_there(repo.checkouts);
}

proof fn lemma_loudest_is_there(checkouts: Seq<CheckoutView>)
    ensures
        checkouts.len() > 0 ==> exists|k: int|
            0 <= k < checkouts.len() && loudest(checkouts) == (
            #[trigger] checkouts[k]).report.activity(),
    decreases checkouts.len(),
{
    if checkouts.len() > 0 {
        let rest = checkouts.drop_last();
        lemma_loudest_is_there(rest);
        assert(checkouts[checkouts.len() - 1] == checkouts.last());
        if rest.len() > 0 {
            let k = choose|k: int|
                0 <= k < rest.len() && loudest(rest) == (#[trigger] rest[k]).report.activity();
            assert(checkouts[k].report.activity() == loudest(rest));
        }
    }
}

/// The authors are those of the commits: each of them once, in the order in which
/// they come first, and nobody without a name.
pub proof fn law_every_author_is_named_once(commits: Seq<CommitView>, name: Text)
    ensures
        authors_of(commits).contains(name) <==> name.len() > 0 && exists|i: int|
            0 <= i < commits.len() && (#[trigger] commits[i]).author == name,
        authors_of(commits).no_duplicates(),
    decreases commits.len(),
{
    if commits.len() > 0 {
        let rest = commits.drop_last();
        let seen = authors_of(rest);
        let author = commits.last().author;
        law_every_author_is_named_once(rest, name);
        law_every_author_is_named_once(rest, author);
        assert(commits[commits.len() - 1].author == author);
        assert(forall|i: int| 0 <= i < rest.len() ==> #[trigger] commits[i] == rest[i]);
        if seen.contains(name) {
            let i = choose|i: int| 0 <= i < rest.len() && (#[trigger] rest[i]).author == name;
            assert(commits[i].author == name);
            let k = choose|k: int| 0 <= k < seen.len() && seen[k] == name;
            assert(authors_of(commits)[k] == name);
        }
        if name == author && name.len() > 0 && !seen.contains(name) {
            assert(authors_of(commits)[seen.len() as int] == name);
        }
        if authors_of(commits).contains(name) && !seen.contains(name) {
            let k = choose|k: int|
                0 <= k < authors_of(commits).len() && authors_of(commits)[k] == name;
            assert(k == seen.len());
        }
        if name.len() > 0 && exists|i: int|
            0 <= i < commits.len() && (#[trigger] commits[i]).author == name {
            let i = choose|i: int|
                0 <= i < commits.len() && (#[trigger] commits[i]).author == name;
            if i < rest.len() {
                assert(rest[i].author == name);
            }
        }
    }
}

/// The user's own name for an agent comes before the program's, and what is empty
/// is no name.
pub proof fn law_an_agent_goes_by_the_users_name(agent: AgentRef<Text>)
    ensures
        agent.name is Some && (agent.name->0).len() > 0 ==> agent.display() == agent.name,
        agent.name is None && agent.program is Some && (agent.program->0).len() > 0
            ==> agent.display() == agent.program,
        agent.display() is Some ==> (agent.display()->0).len() > 0,
        agent.display() is None <==> (agent.name is Some && (agent.name->0).len() == 0) || (
        agent.name is None && (agent.program is None || (agent.program->0).len() == 0)),
{
}

/// No volume is nothing to add, and a checkout without changes is clean.
pub proof fn law_nothing_adds_nothing(churn: Churn)
    ensures
        Churn::nothing().zero(),
        churn.plus(Churn::nothing()) == churn,
        Churn::nothing().plus(churn) == churn,
        churn.zero() <==> churn.files == 0 && churn.insertions == 0 && churn.deletions == 0,
        Dirty::nothing().clean(),
        Dirty::nothing().insertions == 0 && Dirty::nothing().deletions == 0,
{
}

} // verus!
