//! The reporting window, and the marker of the last run.
//!
//! A window is resolved to absolute instants before any commit is read, so that
//! a start that cannot be parsed is a loud error rather than a perfectly
//! formatted empty digest, and so that the header can state exactly which
//! instant the window starts at.

use vstd::prelude::*;

use crate::clock;
use crate::clock::Moment;
use crate::config;
use crate::config::Config;
use crate::git;
use crate::git::ask;
use crate::git::ask::{Ask, Reply, Step};
use crate::git::dates;
use crate::git::Git;
use crate::model::{Note, Period, Severity, Stamp, Text, Window, WindowSource};
use crate::strings;

verus! {

/// How close to the current instant a window start has to be before it is worth
/// saying out loud that the window is empty by construction.
pub const NOW_WINDOW_SLACK_SECONDS: i64 = 5;

/// What the marker file had to say.
///
/// Three states, not two, because "there has never been a run" and "there was
/// one and it cannot be read" lead to the same window but are not the same
/// answer to why.
#[derive(Debug, PartialEq, Eq)]
pub enum MarkerState<T = String> {
    Missing,
    Unreadable(T),
    At(Stamp<T>),
}

impl View for MarkerState {
    type V = MarkerState<Text>;

    open spec fn view(&self) -> MarkerState<Text> {
        match self {
            MarkerState::Missing => MarkerState::Missing,
            MarkerState::Unreadable(reason) => MarkerState::Unreadable(reason@),
            MarkerState::At(stamp) => MarkerState::At(stamp@),
        }
    }
}

/// The run on record and the warning to print: a marker that cannot be read is
/// ignored with a word about it, never a hard failure.
pub open spec fn run_on_record(
    marker: MarkerState<Text>,
    file: Text,
) -> (Option<Stamp<Text>>, Option<Text>) {
    match marker {
        MarkerState::At(stamp) => (Some(stamp), None),
        MarkerState::Missing => (None, None),
        MarkerState::Unreadable(reason) => (
            None,
            Some("standup: ignoring the unreadable last-run marker "@ + file + ": "@ + reason),
        ),
    }
}

/// The timestamp of the previous run a human read, if one was recorded, and
/// what to say where there is a marker that cannot be read.
pub fn previous_run(marker: MarkerState, file: &str) -> (out: (Option<Stamp>, Option<String>))
    ensures
        (strings::view_of(out.0), strings::view_of(out.1)) == run_on_record(marker@, file@),
{
    match marker {
        MarkerState::At(stamp) => (Some(stamp), None),
        MarkerState::Missing => (None, None),
        MarkerState::Unreadable(reason) => (
            None,
            Some(
                strings::cat4(
                    "standup: ignoring the unreadable last-run marker ",
                    file,
                    ": ",
                    reason.as_str(),
                ),
            ),
        ),
    }
}

// ---------------------------------------------------------------------------
// Where the start comes from
// ---------------------------------------------------------------------------

/// How a window is to be found: where its start comes from, the start itself
/// where it is an instant already, and what to say about it.
#[derive(Debug, PartialEq, Eq)]
pub struct Plan {
    pub source: WindowSource,
    pub start: Option<i64>,
    pub notes: Vec<Note>,
}

#[verifier::ext_equal]
pub struct PlanView {
    pub source: WindowSource<Text>,
    pub start: Option<i64>,
    pub notes: Seq<Note<Text>>,
}

impl View for Plan {
    type V = PlanView;

    open spec fn view(&self) -> PlanView {
        PlanView {
            source: self.source@,
            start: self.start,
            notes: strings::views(self.notes@),
        }
    }
}

pub open spec fn future_text(previous: Stamp<Text>, now: Moment<Text>, file: Text) -> Text {
    "the recorded previous run is in the future: "@ + previous.full() + " , but it is now "@
        + clock::stamped(now).full() + ". The clock moved, or "@ + file
        + " was restored from a backup. Delete that file, or pass an explicit --since, and run again."@
}

pub open spec fn first_run_text(since: Text) -> Text {
    "--since-last has no previous run on record, so this digest covers the default window ("@
        + since + ") instead. The next --since-last will start where this run ends."@
}

pub open spec fn unreadable_text(file: Text, reason: Text, since: Text) -> Text {
    "the last-run marker "@ + file + " exists but could not be read ("@ + reason
        + "), so this digest covers the default window ("@ + since
        + ") rather than everything since your last one — it may repeat work you have already seen, or miss work older than that. Delete that file to start the marker again."@
}

/// The plan for a digest since the last one. A marker ahead of the clock would
/// render as a flawless empty digest, so it is refused by name; one that is
/// missing or cannot be read falls back to the default window, and says which.
pub open spec fn since_last_plan(
    since: Text,
    now: Moment<Text>,
    marker: MarkerState<Text>,
    file: Text,
) -> Result<PlanView, Text> {
    match marker {
        MarkerState::At(previous) => if previous.epoch > now.epoch {
            Err(future_text(previous, now, file))
        } else {
            Ok(
                PlanView {
                    source: WindowSource::SinceLast { previous_run: previous },
                    start: Some(previous.epoch),
                    notes: Seq::empty(),
                },
            )
        },
        MarkerState::Missing => Ok(
            PlanView {
                source: WindowSource::SinceLastFirstRun,
                start: None,
                notes: seq![Note { severity: Severity::Info, message: first_run_text(since) }],
            },
        ),
        MarkerState::Unreadable(reason) => Ok(
            PlanView {
                source: WindowSource::SinceLastFirstRun,
                start: None,
                notes: seq![
                    Note {
                        severity: Severity::Warning,
                        message: unreadable_text(file, reason, since),
                    },
                ],
            },
        ),
    }
}

/// Where the window starts. A calendar period goes first, then the last run,
/// then what was asked for.
pub open spec fn planned(
    config: config::ConfigView,
    now: Moment<Text>,
    noon: Moment<Text>,
    marker: MarkerState<Text>,
    file: Text,
) -> Result<PlanView, Text> {
    if strings::trimmed(config.since).len() == 0 {
        Err("--since needs a value; an empty window start cannot be resolved"@)
    } else if config.rollup is Some {
        Ok(
            PlanView {
                source: WindowSource::Rollup { period: config.rollup->0 },
                start: Some(clock::period_start(now, noon)),
                notes: Seq::empty(),
            },
        )
    } else if config.since_last {
        since_last_plan(config.since, now, marker, file)
    } else if config.since_is_explicit {
        Ok(
            PlanView {
                source: WindowSource::Explicit { spec: config.since },
                start: None,
                notes: Seq::empty(),
            },
        )
    } else {
        Ok(PlanView { source: WindowSource::Default, start: None, notes: Seq::empty() })
    }
}

pub open spec fn plan_is(found: Result<Plan, String>, expected: Result<PlanView, Text>) -> bool {
    match found {
        Ok(plan) => expected == Ok::<PlanView, Text>(plan@),
        Err(reason) => expected == Err::<PlanView, Text>(reason@),
    }
}

/// The instant whose local midnight starts the calendar period that is asked
/// for, where there is one to look up.
pub fn period_noon(config: &Config, now: &Moment) -> (out: Option<i64>)
    ensures
        out == match (config@.rollup, now@.civil) {
            (Some(Period::Week), Some(civil)) => Some(
                clock::noon_before(now@, clock::days_since_monday(civil)),
            ),
            (Some(Period::Month), Some(civil)) => Some(
                clock::noon_before(now@, clock::days_since_first(civil)),
            ),
            _ => None,
        },
{
    match config.rollup {
        Some(Period::Week) => clock::week_noon(now),
        Some(Period::Month) => clock::month_noon(now),
        None => None,
    }
}

fn no_notes() -> (out: Vec<Note>)
    ensures
        strings::views(out@) == Seq::<Note<Text>>::empty(),
{
    let notes: Vec<Note> = Vec::new();
    assert(strings::views(notes@) =~= Seq::empty());
    notes
}

fn one_note(note: Note) -> (out: Vec<Note>)
    ensures
        strings::views(out@) == seq![note@],
{
    let mut notes: Vec<Note> = Vec::new();
    notes.push(note);
    assert(strings::views(notes@) =~= seq![note@]);
    notes
}

fn plan_since_last(
    since: &str,
    now: &Moment,
    marker: MarkerState,
    file: &str,
) -> (out: Result<Plan, String>)
    ensures
        plan_is(out, since_last_plan(since@, now@, marker@, file@)),
{
    match marker {
        MarkerState::At(previous) => {
            if previous.epoch > now.epoch {
                let start = strings::cat4(
                    "the recorded previous run is in the future: ",
                    previous.full().as_str(),
                    " , but it is now ",
                    clock::stamp(now).full().as_str(),
                );
                return Err(
                    strings::cat4(
                        start.as_str(),
                        ". The clock moved, or ",
                        file,
                        " was restored from a backup. Delete that file, or pass an explicit --since, and run again.",
                    ),
                );
            }
            let epoch = previous.epoch;
            Ok(
                Plan {
                    source: WindowSource::SinceLast { previous_run: previous },
                    start: Some(epoch),
                    notes: no_notes(),
                },
            )
        },
        MarkerState::Missing => {
            let note = Note::info(
                strings::cat3(
                    "--since-last has no previous run on record, so this digest covers the default window (",
                    since,
                    ") instead. The next --since-last will start where this run ends.",
                ),
            );
            Ok(
                Plan {
                    source: WindowSource::SinceLastFirstRun,
                    start: None,
                    notes: one_note(note),
                },
            )
        },
        MarkerState::Unreadable(reason) => {
            let start = strings::cat5(
                "the last-run marker ",
                file,
                " exists but could not be read (",
                reason.as_str(),
                "), so this digest covers the default window (",
            );
            let note = Note::warning(
                strings::cat3(
                    start.as_str(),
                    since,
                    ") rather than everything since your last one — it may repeat work you have already seen, or miss work older than that. Delete that file to start the marker again.",
                ),
            );
            Ok(
                Plan {
                    source: WindowSource::SinceLastFirstRun,
                    start: None,
                    notes: one_note(note),
                },
            )
        },
    }
}

/// Where the window starts, given what the clock shows now, what it shows at the
/// instant of [`period_noon`], and what the marker of the last run says.
pub fn plan(
    config: &Config,
    now: &Moment,
    noon: &Moment,
    marker: MarkerState,
    file: &str,
) -> (out: Result<Plan, String>)
    ensures
        plan_is(out, planned(config@, now@, noon@, marker@, file@)),
{
    if strings::is_empty(strings::trim(config.since.as_str()).as_str()) {
        return Err(
            "--since needs a value; an empty window start cannot be resolved".to_string(),
        );
    }
    if let Some(period) = config.rollup {
        let start = match period {
            Period::Week => clock::week_start(now, noon),
            Period::Month => clock::month_start(now, noon),
        };
        return Ok(
            Plan {
                source: WindowSource::Rollup { period },
                start: Some(start),
                notes: no_notes(),
            },
        );
    }
    if config.since_last {
        return plan_since_last(config.since.as_str(), now, marker, file);
    }
    let source = if config.since_is_explicit {
        WindowSource::Explicit { spec: config.since.clone() }
    } else {
        WindowSource::Default
    };
    Ok(Plan { source, start: None, notes: no_notes() })
}

// ---------------------------------------------------------------------------
// A place to parse dates in
// ---------------------------------------------------------------------------

/// A directory, or why there is none.
#[derive(Debug, PartialEq, Eq)]
pub struct Place {
    pub found: Result<String, String>,
}

impl View for Place {
    type V = Result<Text, Text>;

    open spec fn view(&self) -> Result<Text, Text> {
        match self.found {
            Ok(path) => Ok(path@),
            Err(reason) => Err(reason@),
        }
    }
}

/// The first of the anchors from `from` on that is really there; failing that,
/// the repository kept for the purpose.
pub open spec fn context_from(
    git: git::GitView,
    anchors: Seq<Text>,
    date_ref_repo: Text,
    heard: Seq<ask::ReplyView>,
    from: nat,
) -> ask::StepView<Result<Text, Text>>
    decreases anchors.len() - from,
{
    if from < anchors.len() {
        if from >= heard.len() {
            ask::StepView::Ask(ask::AskView::IsDirectory { path: anchors[from as int] })
        } else if heard[from as int] is Yes {
            ask::done(Ok(anchors[from as int]), Seq::empty())
        } else {
            context_from(git, anchors, date_ref_repo, heard, from + 1)
        }
    } else {
        match dates::reference_step(git, date_ref_repo, heard.skip(anchors.len() as int)) {
            ask::StepView::Ask(ask) => ask::StepView::Ask(ask),
            ask::StepView::Done { value, problems } => match value {
                Ok(()) => ask::done(Ok(date_ref_repo), problems),
                Err(reason) => ask::done(Err(reason), problems),
            },
        }
    }
}

pub open spec fn context_step(
    git: git::GitView,
    anchors: Seq<Text>,
    date_ref_repo: Text,
    heard: Seq<ask::ReplyView>,
) -> ask::StepView<Result<Text, Text>> {
    context_from(git, anchors, date_ref_repo, heard, 0)
}

/// A directory in which a date can be parsed. The first anchor that is really
/// there wins; failing that, the throwaway bare repository is created, so a
/// session with no checkouts still gets its window validated.
pub fn parsing_context(
    git: &Git,
    anchors: &Vec<String>,
    date_ref_repo: &str,
    heard: &Vec<Reply>,
) -> (out: Step<Place>)
    ensures
        out@ == context_step(
            git@,
            strings::views(anchors@),
            date_ref_repo@,
            strings::views(heard@),
        ),
{
    let ghost places = strings::views(anchors@);
    let ghost all = strings::views(heard@);
    for i in 0..anchors.len()
        invariant
            places == strings::views(anchors@),
            all == strings::views(heard@),
            i <= heard@.len(),
            context_from(git@, places, date_ref_repo@, all, i as nat) == context_step(
                git@,
                places,
                date_ref_repo@,
                all,
            ),
    {
        assert(places[i as int] == anchors@[i as int]@);
        if i >= heard.len() {
            return Step::Ask(Ask::IsDirectory { path: anchors[i].clone() });
        }
        assert(all[i as int] == heard@[i as int]@);
        if let Reply::Yes = &heard[i] {
            let problems: Vec<String> = Vec::new();
            assert(strings::views(problems@) =~= Seq::empty());
            return Step::Done { value: Place { found: Ok(anchors[i].clone()) }, problems };
        }
    }
    let rest = vstd::slice::slice_subrange(heard.as_slice(), anchors.len(), heard.len());
    assert(strings::views(rest@) =~= all.skip(places.len() as int));
    match git.ensure_date_ref_repo(date_ref_repo, rest) {
        Step::Ask(ask) => Step::Ask(ask),
        Step::Done { value, problems } => match value.result {
            Ok(()) => Step::Done {
                value: Place { found: Ok(date_ref_repo.to_string()) },
                problems,
            },
            Err(reason) => Step::Done { value: Place { found: Err(reason) }, problems },
        },
    }
}

// ---------------------------------------------------------------------------
// The two ends
// ---------------------------------------------------------------------------

/// What is still to be found out about the ends of a window.
#[derive(Debug, PartialEq, Eq)]
pub enum DateNeed<T = String> {
    /// The local time of the start, which is an instant already.
    Start(i64),
    /// A directory in which dates can be parsed. Both ends share it.
    Place,
    /// The start, parsed there.
    Since { repo: T, spec: T },
    /// The end, parsed there.
    Until { repo: T, spec: T },
    Settled,
}

impl View for DateNeed {
    type V = DateNeed<Text>;

    open spec fn view(&self) -> DateNeed<Text> {
        match self {
            DateNeed::Start(epoch) => DateNeed::Start(*epoch),
            DateNeed::Place => DateNeed::Place,
            DateNeed::Since { repo, spec } => DateNeed::Since { repo: repo@, spec: spec@ },
            DateNeed::Until { repo, spec } => DateNeed::Until { repo: repo@, spec: spec@ },
            DateNeed::Settled => DateNeed::Settled,
        }
    }
}

/// What to find out next. The start comes first: it is parsed only where the
/// plan does not give it. The end is parsed only where one was asked for.
pub open spec fn date_needed(
    plan: PlanView,
    config: config::ConfigView,
    place: Option<Text>,
    since: Option<Moment<Text>>,
    until: Option<Moment<Text>>,
) -> DateNeed<Text> {
    if since is None {
        match (plan.start, place) {
            (Some(epoch), _) => DateNeed::Start(epoch),
            (None, None) => DateNeed::Place,
            (None, Some(repo)) => DateNeed::Since { repo, spec: config.since },
        }
    } else if config.until is Some && until is None {
        match place {
            None => DateNeed::Place,
            Some(repo) => DateNeed::Until { repo, spec: config.until->0 },
        }
    } else {
        DateNeed::Settled
    }
}

/// What to find out next about the ends of a window, from what is known of them.
pub fn next_date(
    plan: &Plan,
    config: &Config,
    place: Option<&str>,
    since: Option<&Moment>,
    until: Option<&Moment>,
) -> (out: DateNeed)
    ensures
        out@ == date_needed(
            plan@,
            config@,
            strings::view_of(place),
            strings::view_of(since),
            strings::view_of(until),
        ),
{
    if since.is_none() {
        if let Some(epoch) = plan.start {
            return DateNeed::Start(epoch);
        }
        return match place {
            None => DateNeed::Place,
            Some(repo) => DateNeed::Since { repo: repo.to_string(), spec: config.since.clone() },
        };
    }
    match &config.until {
        Some(spec) => if until.is_none() {
            match place {
                None => DateNeed::Place,
                Some(repo) => DateNeed::Until { repo: repo.to_string(), spec: spec.clone() },
            }
        } else {
            DateNeed::Settled
        },
        None => DateNeed::Settled,
    }
}

// ---------------------------------------------------------------------------
// The window
// ---------------------------------------------------------------------------

/// Why a window that begins now is empty, which differs by where it came from.
pub open spec fn advice_text(source: WindowSource<Text>) -> Text {
    match source {
        WindowSource::SinceLast { .. } =>
            "the previous digest was only moments ago, so there has been no time for anything to land. Pass an explicit --since to look further back."@,
        _ =>
            "\"now\", and \"today\" on git before 2.55, mean the current instant rather than the start of the day — try --since midnight, or --since \"12 hours ago\"."@,
    }
}

pub open spec fn empty_text(since: Stamp<Text>, source: WindowSource<Text>) -> Text {
    "this window starts at "@ + since.full()
        + ", which is now, so nothing can fall inside it. "@ + advice_text(source)
}

pub open spec fn backwards_text(since: Stamp<Text>, until: Stamp<Text>) -> Text {
    "the window starts after it ends: --since resolves to "@ + since.full() + " and --until to "@
        + until.full() + ". Nothing can be reported over a window that runs backwards."@
}

#[verifier::ext_equal]
pub struct ResolvedView {
    pub window: Window<Text>,
    pub notes: Seq<Note<Text>>,
}

/// The window over two instants. One that runs backwards is refused; one that
/// begins now and has no end can only be empty, and says so.
pub open spec fn resolved(
    plan: PlanView,
    now: i64,
    since: Moment<Text>,
    until: Option<Moment<Text>>,
) -> Result<ResolvedView, Text> {
    let start = clock::stamped(since);
    match until {
        Some(until) => {
            let end = clock::stamped(until);
            if start.epoch > end.epoch {
                Err(backwards_text(start, end))
            } else {
                Ok(
                    ResolvedView {
                        window: Window { since: start, until: Some(end), source: plan.source },
                        notes: plan.notes,
                    },
                )
            }
        },
        None => Ok(
            ResolvedView {
                window: Window { since: start, until: None, source: plan.source },
                notes: if dates::near(
                    now as int,
                    start.epoch as int,
                    NOW_WINDOW_SLACK_SECONDS as int,
                ) {
                    plan.notes.push(
                        Note {
                            severity: Severity::Warning,
                            message: empty_text(start, plan.source),
                        },
                    )
                } else {
                    plan.notes
                },
            },
        ),
    }
}

fn advise(source: &WindowSource) -> (out: &'static str)
    ensures
        out@ == advice_text(source@),
{
    match source {
        WindowSource::SinceLast { .. } =>
            "the previous digest was only moments ago, so there has been no time for anything to land. Pass an explicit --since to look further back.",
        _ =>
            "\"now\", and \"today\" on git before 2.55, mean the current instant rather than the start of the day — try --since midnight, or --since \"12 hours ago\".",
    }
}

/// The window the digest covers, plus any notes worth showing the user, once its
/// start and its end are known as instants.
pub fn resolve(
    plan: Plan,
    now: i64,
    since: &Moment,
    until: Option<&Moment>,
) -> (out: Result<(Window, Vec<Note>), String>)
    ensures
        match out {
            Ok((window, notes)) => resolved(
                plan@,
                now,
                since@,
                match until {
                    Some(until) => Some(until@),
                    None => None,
                },
            ) == Ok::<ResolvedView, Text>(
                (ResolvedView { window: window@, notes: strings::views(notes@) }),
            ),
            Err(reason) => resolved(
                plan@,
                now,
                since@,
                match until {
                    Some(until) => Some(until@),
                    None => None,
                },
            ) == Err::<ResolvedView, Text>(reason@),
        },
{
    broadcast use strings::group_lists;

    let start = clock::stamp(since);
    let mut notes = plan.notes;
    let source = plan.source;
    match until {
        Some(until) => {
            let end = clock::stamp(until);
            if start.epoch > end.epoch {
                return Err(
                    strings::cat5(
                        "the window starts after it ends: --since resolves to ",
                        start.full().as_str(),
                        " and --until to ",
                        end.full().as_str(),
                        ". Nothing can be reported over a window that runs backwards.",
                    ),
                );
            }
            Ok((Window { since: start, until: Some(end), source }, notes))
        },
        None => {
            let gap: i128 = now as i128 - start.epoch as i128;
            if gap <= NOW_WINDOW_SLACK_SECONDS as i128 && gap >= -(
            NOW_WINDOW_SLACK_SECONDS as i128) {
                let message = strings::cat4(
                    "this window starts at ",
                    start.full().as_str(),
                    ", which is now, so nothing can fall inside it. ",
                    advise(&source),
                );
                notes.push(Note::warning(message));
            }
            Ok((Window { since: start, until: None, source }, notes))
        },
    }
}

// ---------------------------------------------------------------------------
// Laws
// ---------------------------------------------------------------------------

/// A date is parsed only where one is needed: the start where the plan gives
/// none, the end where one was asked for, and both in the same directory. Once
/// nothing more is needed both are known.
pub proof fn law_only_what_was_asked_for_is_parsed(
    plan: PlanView,
    config: config::ConfigView,
    place: Option<Text>,
    since: Option<Moment<Text>>,
    until: Option<Moment<Text>>,
)
    ensures
        match date_needed(plan, config, place, since, until) {
            DateNeed::Start(epoch) => since is None && plan.start == Some(epoch),
            DateNeed::Place => place is None && (plan.start is None || config.until is Some),
            DateNeed::Since { repo, spec } => since is None && plan.start is None && place == Some(
                repo,
            ) && spec == config.since,
            DateNeed::Until { repo, spec } => since is Some && until is None && place == Some(repo)
                && config.until == Some(spec),
            DateNeed::Settled => since is Some && (config.until is Some ==> until is Some),
        },
{
}

/// A window never runs backwards.
pub proof fn law_a_window_runs_forwards(
    plan: PlanView,
    now: i64,
    since: Moment<Text>,
    until: Option<Moment<Text>>,
)
    requires
        resolved(plan, now, since, until) is Ok,
    ensures
        ({
            let window = (resolved(plan, now, since, until)->Ok_0).window;
            window.until is Some ==> window.since.epoch <= (window.until->0).epoch
        }),
{
}

/// A window that can only be empty never looks like a quiet day: it carries a
/// warning.
pub proof fn law_a_window_that_starts_now_says_so(plan: PlanView, now: i64, since: Moment<Text>)
    requires
        dates::near(now as int, since.epoch as int, NOW_WINDOW_SLACK_SECONDS as int),
    ensures
        ({
            let notes = (resolved(plan, now, since, None)->Ok_0).notes;
            &&& resolved(plan, now, since, None) is Ok
            &&& notes.len() == plan.notes.len() + 1
            &&& notes.last().severity == Severity::Warning
        }),
{
}

/// A digest since the last run never starts after now, and one that falls back
/// to the default window says so.
pub proof fn law_since_last_starts_in_the_past_or_says_why_not(
    config: config::ConfigView,
    now: Moment<Text>,
    noon: Moment<Text>,
    marker: MarkerState<Text>,
    file: Text,
)
    requires
        config.since_last,
        config.rollup is None,
        planned(config, now, noon, marker, file) is Ok,
    ensures
        ({
            let plan = planned(config, now, noon, marker, file)->Ok_0;
            match plan.start {
                Some(start) => start <= now.epoch,
                None => plan.notes.len() == 1,
            }
        }),
{
}

/// A digest since the last one starts at the very instant the last one was
/// made, so nothing is counted twice and nothing is missed in between; an
/// instant still to come is refused.
pub proof fn law_since_last_starts_where_the_last_one_ended(
    config: config::ConfigView,
    now: Moment<Text>,
    noon: Moment<Text>,
    last: Stamp<Text>,
    file: Text,
    since: Moment<Text>,
)
    requires
        config.since_last,
        config.rollup is None,
        strings::trimmed(config.since).len() > 0,
        since.epoch == last.epoch,
    ensures
        ({
            let plan = planned(config, now, noon, MarkerState::At(last), file);
            if last.epoch > now.epoch {
                plan is Err
            } else {
                &&& plan is Ok
                &&& (plan->Ok_0).start == Some(last.epoch)
                &&& resolved(plan->Ok_0, now.epoch, since, None) is Ok
                &&& (resolved(plan->Ok_0, now.epoch, since, None)->Ok_0).window.since.epoch
                    == last.epoch
                &&& (resolved(plan->Ok_0, now.epoch, since, None)->Ok_0).window.source
                    == WindowSource::SinceLast { previous_run: last }
            }
        }),
{
}

/// Notes about where the window came from are kept in the result.
pub proof fn law_notes_are_kept(
    plan: PlanView,
    now: i64,
    since: Moment<Text>,
    until: Option<Moment<Text>>,
)
    requires
        resolved(plan, now, since, until) is Ok,
    ensures
        plan.notes.is_prefix_of((resolved(plan, now, since, until)->Ok_0).notes),
{
}

/// A window is what was asked for: it starts at the start it was given and ends
/// at the end, where there is one, under the source of its plan. It is refused
/// exactly where it would run backwards.
pub proof fn law_a_window_is_what_was_asked_for(
    plan: PlanView,
    now: i64,
    since: Moment<Text>,
    until: Option<Moment<Text>>,
)
    ensures
        match resolved(plan, now, since, until) {
            Ok(found) => {
                &&& found.window.since.epoch == since.epoch
                &&& found.window.since == clock::stamped(since)
                &&& found.window.until is Some <==> until is Some
                &&& until is Some ==> (found.window.until->0).epoch == (until->0).epoch
                &&& until is Some ==> found.window.until->0 == clock::stamped(until->0)
                &&& found.window.source == plan.source
                &&& until is Some ==> since.epoch <= (until->0).epoch
            },
            Err(reason) => until is Some && since.epoch > (until->0).epoch,
        },
{
}

/// A warning that nothing can fall inside the window comes exactly where it has
/// no end and starts within five seconds of now; a window with an end, or one
/// that starts elsewhere, says nothing more than its plan does.
pub proof fn law_only_a_window_that_starts_now_says_so(
    plan: PlanView,
    now: i64,
    since: Moment<Text>,
    until: Option<Moment<Text>>,
)
    requires
        resolved(plan, now, since, until) is Ok,
    ensures
        ({
            let notes = (resolved(plan, now, since, until)->Ok_0).notes;
            if until is None && -5 <= now - since.epoch <= 5 {
                notes.len() == plan.notes.len() + 1 && notes.drop_last() == plan.notes
            } else {
                notes == plan.notes
            }
        }),
{
    if until is None && -5 <= now - since.epoch <= 5 {
        let notes = (resolved(plan, now, since, until)->Ok_0).notes;
        assert(notes.drop_last() =~= plan.notes);
    }
}

/// Where a window starts goes by what was asked for. A calendar period starts
/// where the period does, a digest since the last one at the last one, and
/// anything else is left to be parsed from the text that was given; a start
/// without text and a last run that is still to come are refused, and nothing
/// else is.
pub proof fn law_the_start_goes_by_what_was_asked_for(
    config: config::ConfigView,
    now: Moment<Text>,
    noon: Moment<Text>,
    marker: MarkerState<Text>,
    file: Text,
)
    ensures
        match planned(config, now, noon, marker, file) {
            Err(_) => strings::blank(config.since) || (config.rollup is None && config.since_last
                && marker is At && marker->At_0.epoch > now.epoch),
            Ok(plan) => {
                &&& !strings::blank(config.since)
                &&& match plan.source {
                    WindowSource::Rollup { period } => config.rollup == Some(period) && plan.start
                        == Some(clock::period_start(now, noon)),
                    WindowSource::SinceLast { previous_run } => config.since_last && marker
                        == MarkerState::At(previous_run) && plan.start == Some(previous_run.epoch)
                        && previous_run.epoch <= now.epoch,
                    WindowSource::SinceLastFirstRun => config.since_last && !(marker is At)
                        && plan.start is None,
                    WindowSource::Explicit { spec } => config.since_is_explicit && spec
                        == config.since && plan.start is None,
                    WindowSource::Default => !config.since_is_explicit && plan.start is None,
                }
                &&& (plan.source is Rollup <==> config.rollup is Some)
                &&& (config.rollup is None ==> (config.since_last <==> plan.source is SinceLast
                    || plan.source is SinceLastFirstRun))
            },
        },
{
    strings::law_trimming_takes_white_space_off_the_ends(config.since);
}

/// A first run and a marker that cannot be read fall back to the same window and
/// are not told alike: the first is information, the second a warning, which
/// names the file and the reason.
pub proof fn law_a_fault_is_not_a_first_run(
    since: Text,
    now: Moment<Text>,
    file: Text,
    reason: Text,
)
    ensures
        ({
            let first = since_last_plan(since, now, MarkerState::Missing, file);
            let fault = since_last_plan(since, now, MarkerState::Unreadable(reason), file);
            &&& first is Ok && fault is Ok
            &&& first->Ok_0.start == fault->Ok_0.start
            &&& first->Ok_0.notes.len() == 1 && fault->Ok_0.notes.len() == 1
            &&& first->Ok_0.notes[0].severity == Severity::Info
            &&& fault->Ok_0.notes[0].severity == Severity::Warning
            &&& strings::holds(first->Ok_0.notes[0].message, since)
            &&& strings::holds(fault->Ok_0.notes[0].message, since)
            &&& strings::holds(fault->Ok_0.notes[0].message, file)
            &&& strings::holds(fault->Ok_0.notes[0].message, reason)
        }),
{
    broadcast use strings::lemma_holds_together;

    strings::lemma_holds_itself(since);
    strings::lemma_holds_itself(file);
    strings::lemma_holds_itself(reason);
}

/// The run on record is the one in the marker, and a marker that cannot be read
/// is none, with a word about it.
pub proof fn law_the_run_on_record_is_the_markers(marker: MarkerState<Text>, file: Text)
    ensures
        (run_on_record(marker, file).0 is Some) <==> (marker is At),
        marker is At ==> run_on_record(marker, file).0->0 == marker->At_0,
        (run_on_record(marker, file).1 is Some) <==> (marker is Unreadable),
        marker is Unreadable ==> strings::holds(
            run_on_record(marker, file).1->0,
            marker->Unreadable_0,
        ),
{
    broadcast use strings::lemma_holds_together;

    if marker is Unreadable {
        strings::lemma_holds_itself(marker->Unreadable_0);
    }
}

} // verus!
