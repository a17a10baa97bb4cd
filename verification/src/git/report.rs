//! Everything the digest knows about one checkout.
//!
//! A report never fails: anything that goes wrong lands in its problems and is
//! rendered, because a checkout dropped from the digest because git stuttered is
//! indistinguishable from a quiet one.

use vstd::prelude::*;

use crate::git;
use crate::git::ask;
use crate::git::ask::{Ask, Reply, Step};
use crate::git::identify::CheckoutId;
use crate::git::landing;
use crate::git::landing::{Landing, Trunk};
use crate::git::stages;
use crate::git::stages::History;
use crate::git::Git;
use crate::model;
use crate::model::{CheckoutReport, Dirty, Head, Text, Tracking, Unpushed, Window};
use crate::strings;

verus! {

/// How far a report has come: the parts that are known, the problems met so far,
/// and the answers to the questions of the part in hand.
#[derive(Debug, PartialEq, Eq)]
pub struct Progress {
    git_dir: Option<Option<String>>,
    head: Option<Head>,
    history: Option<History>,
    dirty: Option<Dirty>,
    tracking: Option<Tracking>,
    trunk: Option<Option<Trunk>>,
    landing: Option<Landing>,
    unpushed: Option<Unpushed>,
    problems: Vec<String>,
    heard: Vec<Reply>,
}

#[verifier::ext_equal]
pub struct ProgressView {
    pub git_dir: Option<Option<Text>>,
    pub head: Option<Head<Text>>,
    pub history: Option<stages::HistoryView>,
    pub dirty: Option<Dirty>,
    pub tracking: Option<Tracking<Text>>,
    pub trunk: Option<Option<Trunk<Text>>>,
    pub landing: Option<landing::LandingView>,
    pub unpushed: Option<Unpushed<Text>>,
    pub problems: Seq<Text>,
    pub heard: Seq<ask::ReplyView>,
}

impl View for Progress {
    type V = ProgressView;

    closed spec fn view(&self) -> ProgressView {
        ProgressView {
            git_dir: match self.git_dir {
                Some(dir) => Some(strings::view_of(dir)),
                None => None,
            },
            head: strings::view_of(self.head),
            history: strings::view_of(self.history),
            dirty: self.dirty,
            tracking: strings::view_of(self.tracking),
            trunk: match self.trunk {
                Some(trunk) => Some(strings::view_of(trunk)),
                None => None,
            },
            landing: strings::view_of(self.landing),
            unpushed: strings::view_of(self.unpushed),
            problems: strings::views(self.problems@),
            heard: strings::views(self.heard@),
        }
    }
}

impl ProgressView {
    pub open spec fn start() -> ProgressView {
        ProgressView {
            git_dir: None,
            head: None,
            history: None,
            dirty: None,
            tracking: None,
            trunk: None,
            landing: None,
            unpushed: None,
            problems: Seq::empty(),
            heard: Seq::empty(),
        }
    }

    pub open spec fn complete(self) -> bool {
        &&& self.git_dir is Some
        &&& self.head is Some
        &&& self.history is Some
        &&& self.dirty is Some
        &&& self.tracking is Some
        &&& self.trunk is Some
        &&& self.landing is Some
        &&& self.unpushed is Some
    }

    /// With the part in hand finished.
    pub open spec fn onward(self, problems: Seq<Text>) -> ProgressView {
        ProgressView { problems: self.problems + problems, heard: Seq::empty(), ..self }
    }

    /// How many parts are missing.
    pub open spec fn missing(self) -> nat {
        let one = |known: bool|
            if known {
                0nat
            } else {
                1nat
            };
        one(self.git_dir is Some) + one(self.head is Some) + one(self.history is Some) + one(
            self.dirty is Some,
        ) + one(self.tracking is Some) + one(self.trunk is Some) + one(self.landing is Some)
            + one(self.unpushed is Some)
    }
}

/// What the next thing to do about a report is.
pub enum TurnView {
    /// A question to ask.
    Ask(ask::AskView),
    /// A part has been finished.
    Moved(ProgressView),
    Complete,
}

/// The parts come in a fixed order, and each is worked out from those before it.
/// An unborn branch has no history to walk.
pub open spec fn turn(
    git: git::GitView,
    path: Text,
    window: Window<Text>,
    p: ProgressView,
) -> TurnView {
    if p.git_dir is None {
        match stages::git_dir_step(git, path, p.heard) {
            ask::StepView::Ask(ask) => TurnView::Ask(ask),
            ask::StepView::Done { value, problems } => TurnView::Moved(
                (ProgressView { git_dir: Some(value), ..p }).onward(problems),
            ),
        }
    } else if p.head is None {
        match stages::head_step(git, path, p.git_dir->0, p.heard) {
            ask::StepView::Ask(ask) => TurnView::Ask(ask),
            ask::StepView::Done { value, problems } => TurnView::Moved(
                (ProgressView { head: Some(value), ..p }).onward(problems),
            ),
        }
    } else if p.history is None {
        if p.head->0 is Unborn {
            TurnView::Moved(
                (ProgressView { history: Some(stages::no_history()), ..p }).onward(Seq::empty()),
            )
        } else {
            match stages::commits_step(git, path, window, p.heard) {
                ask::StepView::Ask(ask) => TurnView::Ask(ask),
                ask::StepView::Done { value, problems } => TurnView::Moved(
                    (ProgressView { history: Some(value), ..p }).onward(problems),
                ),
            }
        }
    } else if p.dirty is None {
        match stages::dirty_step(git, path, p.git_dir->0, p.heard) {
            ask::StepView::Ask(ask) => TurnView::Ask(ask),
            ask::StepView::Done { value, problems } => TurnView::Moved(
                (ProgressView { dirty: Some(value), ..p }).onward(problems),
            ),
        }
    } else if p.tracking is None {
        match stages::tracking_step(git, path, p.head->0, p.heard) {
            ask::StepView::Ask(ask) => TurnView::Ask(ask),
            ask::StepView::Done { value, problems } => TurnView::Moved(
                (ProgressView { tracking: Some(value), ..p }).onward(problems),
            ),
        }
    } else if p.trunk is None {
        match landing::trunk_step(git, path, p.heard) {
            ask::StepView::Ask(ask) => TurnView::Ask(ask),
            ask::StepView::Done { value, problems } => TurnView::Moved(
                (ProgressView { trunk: Some(value), ..p }).onward(problems),
            ),
        }
    } else if p.landing is None {
        match landing::landed_step(git, path, p.head->0, p.trunk->0, p.heard) {
            ask::StepView::Ask(ask) => TurnView::Ask(ask),
            ask::StepView::Done { value, problems } => TurnView::Moved(
                (ProgressView { landing: Some(value), ..p }).onward(problems),
            ),
        }
    } else if p.unpushed is None {
        match stages::unpushed_step(git, path, p.head->0, p.heard) {
            ask::StepView::Ask(ask) => TurnView::Ask(ask),
            ask::StepView::Done { value, problems } => TurnView::Moved(
                (ProgressView { unpushed: Some(value), ..p }).onward(problems),
            ),
        }
    } else {
        TurnView::Complete
    }
}

/// The parts that can be finished without asking, finished.
pub open spec fn furthest(
    git: git::GitView,
    path: Text,
    window: Window<Text>,
    p: ProgressView,
) -> ProgressView
    decreases p.missing(),
{
    match turn(git, path, window, p) {
        TurnView::Moved(next) => furthest(git, path, window, next),
        _ => p,
    }
}

/// The question to ask where a report stands; `None` once it is complete.
pub open spec fn question(
    git: git::GitView,
    path: Text,
    window: Window<Text>,
    p: ProgressView,
) -> Option<ask::AskView> {
    match turn(git, path, window, p) {
        TurnView::Ask(ask) => Some(ask),
        _ => None,
    }
}

impl Progress {
    pub fn new() -> (out: Progress)
        ensures
            out@ == ProgressView::start(),
    {
        let problems: Vec<String> = Vec::new();
        let heard: Vec<Reply> = Vec::new();
        assert(strings::views(problems@) =~= Seq::empty());
        assert(strings::views(heard@) =~= Seq::empty());
        Progress {
            git_dir: None,
            head: None,
            history: None,
            dirty: None,
            tracking: None,
            trunk: None,
            landing: None,
            unpushed: None,
            problems,
            heard,
        }
    }

    /// Hears the answer to the question last asked.
    pub fn hear(&mut self, reply: Reply)
        ensures
            final(self)@ == (ProgressView {
                heard: old(self)@.heard.push(reply@),
                ..old(self)@
            }),
    {
        broadcast use strings::group_lists;

        self.heard.push(reply);
    }

    fn finish_part(&mut self, problems: Vec<String>)
        ensures
            final(self)@ == old(self)@.onward(strings::views(problems@)),
    {
        broadcast use strings::group_lists;

        let mut problems = problems;
        self.problems.append(&mut problems);
        self.heard = Vec::new();
        assert(strings::views(self.heard@) =~= Seq::empty());
    }

    /// One turn of the first four parts.
    fn turn_early(&mut self, git: &Git, path: &str, window: &Window) -> (out: Option<Ask>)
        requires
            old(self)@.git_dir is None || old(self)@.head is None || old(self)@.history is None
                || old(self)@.dirty is None,
        ensures
            match out {
                Some(ask) => turn(git@, path@, window@, old(self)@) == TurnView::Ask(ask@)
                    && final(self)@ == old(self)@,
                None => turn(git@, path@, window@, old(self)@) == TurnView::Moved(final(self)@),
            },
    {
        let dir = match &self.git_dir {
            None => {
                match stages::git_dir(git, path, &self.heard) {
                    Step::Ask(ask) => {
                        return Some(ask);
                    },
                    Step::Done { value, problems } => {
                        self.git_dir = Some(value.value);
                        self.finish_part(problems);
                        return None;
                    },
                }
            },
            Some(dir) => dir,
        };
        let head = match &self.head {
            None => {
                match stages::head(git, path, dir, &self.heard) {
                    Step::Ask(ask) => {
                        return Some(ask);
                    },
                    Step::Done { value, problems } => {
                        self.head = Some(value);
                        self.finish_part(problems);
                        return None;
                    },
                }
            },
            Some(head) => head,
        };
        if let None = &self.history {
            if let Head::Unborn { .. } = head {
                self.history = Some(stages::empty_history());
                let none: Vec<String> = Vec::new();
                assert(strings::views(none@) =~= Seq::empty());
                self.finish_part(none);
                return None;
            }
            match stages::commits(git, path, window, &self.heard) {
                Step::Ask(ask) => {
                    return Some(ask);
                },
                Step::Done { value, problems } => {
                    self.history = Some(value);
                    self.finish_part(problems);
                    return None;
                },
            }
        }
        match stages::dirty(git, path, dir, &self.heard) {
            Step::Ask(ask) => Some(ask),
            Step::Done { value, problems } => {
                self.dirty = Some(value);
                self.finish_part(problems);
                None
            },
        }
    }

    /// One turn of the last four parts.
    fn turn_late(&mut self, git: &Git, path: &str, head: &Head) -> (out: Option<Ask>)
        requires
            old(self)@.git_dir is Some,
            old(self)@.head == Some(head@),
            old(self)@.history is Some,
            old(self)@.dirty is Some,
            !old(self)@.complete(),
        ensures
            forall|window: Window<Text>|
                match out {
                    Some(ask) => #[trigger] turn(git@, path@, window, old(self)@) == TurnView::Ask(ask@)
                        && final(self)@ == old(self)@,
                    None => turn(git@, path@, window, old(self)@) == TurnView::Moved(
                        final(self)@,
                    ),
                },
    {
        if let None = &self.tracking {
            match stages::tracking(git, path, head, &self.heard) {
                Step::Ask(ask) => {
                    return Some(ask);
                },
                Step::Done { value, problems } => {
                    self.tracking = Some(value);
                    self.finish_part(problems);
                    return None;
                },
            }
        }
        let trunk = match &self.trunk {
            None => {
                match landing::default_branch(git, path, &self.heard) {
                    Step::Ask(ask) => {
                        return Some(ask);
                    },
                    Step::Done { value, problems } => {
                        self.trunk = Some(value.value);
                        self.finish_part(problems);
                        return None;
                    },
                }
            },
            Some(trunk) => trunk,
        };
        if let None = &self.landing {
            match landing::landed(git, path, head, trunk, &self.heard) {
                Step::Ask(ask) => {
                    return Some(ask);
                },
                Step::Done { value, problems } => {
                    self.landing = Some(value);
                    self.finish_part(problems);
                    return None;
                },
            }
        }
        match stages::unpushed(git, path, head, &self.heard) {
            Step::Ask(ask) => Some(ask),
            Step::Done { value, problems } => {
                self.unpushed = Some(value);
                self.finish_part(problems);
                None
            },
        }
    }

    /// Whether every part is known.
    pub fn is_complete(&self) -> (answer: bool)
        ensures
            answer == self@.complete(),
    {
        self.git_dir.is_some() && self.head.is_some() && self.history.is_some()
            && self.dirty.is_some() && self.tracking.is_some() && self.trunk.is_some()
            && self.landing.is_some() && self.unpushed.is_some()
    }

    /// The report, once every part is known, and what is worth remembering of
    /// the landing.
    pub fn finish(self, id: &CheckoutId) -> (out: (CheckoutReport, Landing))
        requires
            self@.complete(),
        ensures
            out.0@ == reported(id@, self@),
            out.1@ == self@.landing->0,
    {
        let head = self.head.unwrap();
        let history = self.history.unwrap();
        let landing = self.landing.unwrap();
        let report = CheckoutReport {
            path: id.path.clone(),
            repo_key: id.repo_key.clone(),
            repo_root: id.repo_root.clone(),
            is_linked_worktree: id.is_linked_worktree,
            head,
            commits: history.commits,
            churn: history.churn,
            dirty: self.dirty.unwrap(),
            tracking: self.tracking.unwrap(),
            landed: landing.landed.clone(),
            unpushed: self.unpushed.unwrap(),
            problems: self.problems,
        };
        (report, landing)
    }
}

impl Git {
    /// Goes as far as it can without an answer. Gives the question to ask next,
    /// or nothing once every part is known.
    pub fn report(
        &self,
        id: &CheckoutId,
        window: &Window,
        progress: &mut Progress,
    ) -> (out: Option<Ask>)
        ensures
            final(progress)@ == furthest(self@, id@.path, window@, old(progress)@),
            strings::view_of(out) == question(self@, id@.path, window@, final(progress)@),
            out is None <==> final(progress)@.complete(),
    {
        let ghost start = progress@;
        let path = id.path.as_str();
        loop
            invariant
                start == old(progress)@,
                path@ == id@.path,
                furthest(self@, id@.path, window@, progress@) == furthest(
                    self@,
                    id@.path,
                    window@,
                    start,
                ),
            decreases progress@.missing(),
        {
            if progress.is_complete() {
                return None;
            }
            let early = progress.git_dir.is_none() || progress.head.is_none()
                || progress.history.is_none() || progress.dirty.is_none();
            let asked = if early {
                progress.turn_early(self, path, window)
            } else {
                match strings::clone_option(&progress.head) {
                    Some(head) => progress.turn_late(self, path, &head),
                    None => None,
                }
            };
            if let Some(ask) = asked {
                return Some(ask);
            }
        }
    }
}

/// The report that the parts come to.
pub open spec fn reported(id: CheckoutId<Text>, p: ProgressView) -> model::ReportView {
    model::ReportView {
        path: id.path,
        repo_key: id.repo_key,
        repo_root: id.repo_root,
        is_linked_worktree: id.is_linked_worktree,
        head: p.head->0,
        commits: (p.history->0).commits,
        churn: (p.history->0).churn,
        dirty: p.dirty->0,
        tracking: p.tracking->0,
        landed: (p.landing->0).landed,
        unpushed: p.unpushed->0,
        problems: p.problems,
    }
}

/// No problem is ever lost on the way: what has been noted stays noted.
pub proof fn law_problems_are_never_dropped(
    git: git::GitView,
    path: Text,
    window: Window<Text>,
    p: ProgressView,
)
    ensures
        p.problems.is_prefix_of(furthest(git, path, window, p).problems),
    decreases p.missing(),
{
    match turn(git, path, window, p) {
        TurnView::Moved(next) => {
            law_problems_are_never_dropped(git, path, window, next);
            assert(p.problems.is_prefix_of(next.problems));
        },
        _ => {},
    }
}

/// A checkout with a commit whose unpushed work git could not count is never
/// quiet: the report says what went wrong.
pub proof fn law_an_unread_count_is_never_quiet(
    git: git::GitView,
    path: Text,
    window: Window<Text>,
    p: ProgressView,
    id: CheckoutId<Text>,
)
    requires
        p.unpushed is None,
        (ProgressView { unpushed: Some(Unpushed::NoRemote), ..p }).complete(),
        turn(git, path, window, p) is Moved,
        turn(git, path, window, p)->Moved_0.unpushed matches Some(Unpushed::Unknown { .. }),
        (p.head->0).oid() is Some,
        ((p.head->0).oid()->0).len() > 0,
    ensures
        turn(git, path, window, p)->Moved_0.complete(),
        reported(id, turn(git, path, window, p)->Moved_0).activity() == model::Activity::Broken,
{
    stages::law_an_unknown_count_is_a_problem(git, path, p.head->0, p.heard);
}

/// The subcommands that are run on a repository as it stands. As they are used
/// here, none of them writes.
pub open spec fn reading(name: Text) -> bool {
    name == "rev-parse"@ || name == "symbolic-ref"@ || name == "log"@ || name == "status"@ || name
        == "for-each-ref"@ || name == "rev-list"@ || name == "merge-base"@ || name == "cherry"@
        || name == "remote"@
}

/// Whether a question leaves the repository at a path as it is. A diff writes
/// the index it reads, so it only ever runs on a copy.
pub open spec fn leaves_alone(ask: ask::AskView, path: Text) -> bool {
    match ask {
        ask::AskView::Run { dir, args } => dir == path && args.len() > 0 && reading(args[0]),
        ask::AskView::RunOnCopy { dir, args } => dir == path && args.len() > 0 && args[0]
            == "diff"@,
        ask::AskView::PatchIds { dir, args } => dir == path && args.len() > 0 && (args[0]
            == "diff-tree"@ || args[0] == "log"@),
        ask::AskView::RunAt { .. } => false,
        ask::AskView::MakeDirectory { .. } => false,
        _ => true,
    }
}

proof fn lemma_seeking_reads(
    git: git::GitView,
    path: Text,
    names: Seq<Text>,
    heard: Seq<ask::ReplyView>,
    from: nat,
    problems: Seq<Text>,
)
    ensures
        landing::seek(git, path, names, heard, from, problems) matches ask::StepView::Ask(ask)
            ==> leaves_alone(ask, path),
    decreases names.len() - from,
{
    if from < names.len() && from < heard.len() {
        let reply = heard[from as int];
        lemma_seeking_reads(
            git,
            path,
            names,
            heard,
            from + 1,
            problems + git::trouble(git, path, "rev-parse"@, reply),
        );
    }
}

/// A report never writes to the repository it is about: whatever has been
/// answered so far, the next question leaves it alone.
pub proof fn law_a_report_only_reads(
    git: git::GitView,
    path: Text,
    window: Window<Text>,
    p: ProgressView,
)
    requires
        question(git, path, window, p) is Some,
    ensures
        leaves_alone(question(git, path, window, p)->0, path),
{
    if p.heard.len() > 0 {
        lemma_seeking_reads(
            git,
            path,
            landing::trunk_names(p.heard[0].answer()),
            p.heard.skip(1),
            0,
            git::trouble(git, path, "symbolic-ref"@, p.heard[0]),
        );
    }
}

/// A turn of a report settles one thing and leaves what is known as it is: what
/// one stage found is never overwritten by another, and the problems it met are
/// added to those before it.
pub proof fn law_a_turn_settles_one_thing(
    git: git::GitView,
    path: Text,
    window: Window<Text>,
    p: ProgressView,
)
    requires
        turn(git, path, window, p) is Moved,
    ensures
        ({
            let next = turn(git, path, window, p)->Moved_0;
            &&& next.missing() + 1 == p.missing()
            &&& p.git_dir is Some ==> next.git_dir == p.git_dir
            &&& p.head is Some ==> next.head == p.head
            &&& p.history is Some ==> next.history == p.history
            &&& p.dirty is Some ==> next.dirty == p.dirty
            &&& p.tracking is Some ==> next.tracking == p.tracking
            &&& p.trunk is Some ==> next.trunk == p.trunk
            &&& p.landing is Some ==> next.landing == p.landing
            &&& p.unpushed is Some ==> next.unpushed == p.unpushed
            &&& p.problems.is_prefix_of(next.problems)
            &&& next.heard.len() == 0
        }),
{
}

/// What a turn settles is what the stage came to, about the same checkout and
/// with the head and the directory found before.
pub proof fn law_a_turn_takes_over_what_its_stage_found(
    git: git::GitView,
    path: Text,
    window: Window<Text>,
    p: ProgressView,
)
    requires
        turn(git, path, window, p) is Moved,
    ensures
        ({
            let next = turn(git, path, window, p)->Moved_0;
            &&& p.head is None && next.head is Some ==> stages::head_step(
                git,
                path,
                p.git_dir->0,
                p.heard,
            ) == ask::done(next.head->0, next.problems.skip(p.problems.len() as int))
            &&& p.history is None && next.history is Some && !(p.head->0 is Unborn)
                ==> stages::commits_step(git, path, window, p.heard) == ask::done(
                next.history->0,
                next.problems.skip(p.problems.len() as int),
            )
            &&& p.history is None && next.history is Some && p.head->0 is Unborn ==> (
            next.history->0).commits.len() == 0
            &&& p.dirty is None && next.dirty is Some ==> stages::dirty_step(
                git,
                path,
                p.git_dir->0,
                p.heard,
            ) == ask::done(next.dirty->0, next.problems.skip(p.problems.len() as int))
            &&& p.tracking is None && next.tracking is Some ==> stages::tracking_step(
                git,
                path,
                p.head->0,
                p.heard,
            ) == ask::done(next.tracking->0, next.problems.skip(p.problems.len() as int))
            &&& p.landing is None && next.landing is Some ==> landing::landed_step(
                git,
                path,
                p.head->0,
                p.trunk->0,
                p.heard,
            ) == ask::done(next.landing->0, next.problems.skip(p.problems.len() as int))
            &&& p.unpushed is None && next.unpushed is Some ==> stages::unpushed_step(
                git,
                path,
                p.head->0,
                p.heard,
            ) == ask::done(next.unpushed->0, next.problems.skip(p.problems.len() as int))
        }),
{
    let next = turn(git, path, window, p)->Moved_0;
    let more = next.problems.skip(p.problems.len() as int);
    if p.git_dir is Some {
        if p.head is None {
            let step = stages::head_step(git, path, p.git_dir->0, p.heard);
            assert(more =~= step->problems);
        } else if p.history is None {
            if !(p.head->0 is Unborn) {
                let step = stages::commits_step(git, path, window, p.heard);
                assert(more =~= step->problems);
            }
        } else if p.dirty is None {
            let step = stages::dirty_step(git, path, p.git_dir->0, p.heard);
            assert(more =~= step->problems);
        } else if p.tracking is None {
            let step = stages::tracking_step(git, path, p.head->0, p.heard);
            assert(more =~= step->problems);
        } else if p.trunk is None {
        } else if p.landing is None {
            let step = landing::landed_step(git, path, p.head->0, p.trunk->0, p.heard);
            assert(more =~= step->problems);
        } else if p.unpushed is None {
            let step = stages::unpushed_step(git, path, p.head->0, p.heard);
            assert(more =~= step->problems);
        }
    }
}

/// A report is about its checkout, and holds what was found out about it: each
/// part in its own place, and every problem.
pub proof fn law_a_report_holds_what_was_found(id: CheckoutId<Text>, p: ProgressView)
    requires
        p.complete(),
    ensures
        ({
            let report = reported(id, p);
            &&& report.path == id.path
            &&& report.repo_key == id.repo_key
            &&& report.repo_root == id.repo_root
            &&& report.is_linked_worktree == id.is_linked_worktree
            &&& Some(report.head) == p.head
            &&& report.commits == (p.history->0).commits
            &&& report.churn == (p.history->0).churn
            &&& Some(report.dirty) == p.dirty
            &&& Some(report.tracking) == p.tracking
            &&& report.landed == (p.landing->0).landed
            &&& Some(report.unpushed) == p.unpushed
            &&& report.problems == p.problems
        }),
{
}

} // verus!
