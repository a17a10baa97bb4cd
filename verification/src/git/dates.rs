//! Dates, read by git's own parser.
//!
//! `git rev-parse --since=<garbage>` exits 0 and answers *now*, so an
//! unparseable window would silently produce an empty digest. What lands on now
//! without meaning it is refused here.

use vstd::prelude::*;

use crate::clock;
use crate::git;
use crate::git::ask;
use crate::git::ask::{Ask, Reply, Step};
use crate::git::identify;
use crate::git::stages;
use crate::git::Git;
use crate::model::Text;
use crate::paths;
use crate::strings;

verus! {

/// What may legitimately resolve to the current instant. Some versions of git
/// read `today` as now, others as the start of the local day.
pub const SPECS_MEANING_NOW: [&'static str; 2] = ["now", "today"];

/// How close to the current instant a resolved date has to be before it is
/// treated as git's silent "I could not parse that" answer.
pub const NOW_SLACK_SECONDS: i64 = 2;

/// An instant, or why there is none.
#[derive(Debug, PartialEq, Eq)]
pub struct Instant {
    pub found: Result<i64, String>,
}

impl View for Instant {
    type V = Result<i64, Text>;

    open spec fn view(&self) -> Result<i64, Text> {
        match self.found {
            Ok(epoch) => Ok(epoch),
            Err(reason) => Err(reason@),
        }
    }
}

// ---------------------------------------------------------------------------
// Resolving
// ---------------------------------------------------------------------------

pub open spec fn date_args(spec: Text) -> Seq<Text> {
    seq!["rev-parse"@, "--since="@ + spec]
}

pub open spec fn means_now(spec: Text) -> bool {
    strings::views(SPECS_MEANING_NOW@).contains(strings::lowered(strings::trimmed(spec)))
}

/// Whether two instants are within the slack of each other.
pub open spec fn near(a: int, b: int, slack: int) -> bool {
    -slack <= a - b <= slack
}

pub open spec fn unparsed_text(spec: Text) -> Text {
    "git could not parse the window "@ + strings::quoted_text(spec)
        + ": it resolved to the current time, which would render as an empty digest. Try a spec like `midnight`, `yesterday`, `2 hours ago` or `2026-08-01`."@
}

/// What an answer says: the instant behind `--max-age=`, unless it is the
/// current one for a spec that does not mean now.
pub open spec fn date_in(spec: Text, answer: Text, now: i64) -> Result<i64, Text> {
    match strings::stripped(answer, "--max-age="@) {
        None => Err(
            "git rev-parse --since="@ + spec + " answered "@ + strings::quoted_text(answer)
                + ", not --max-age"@,
        ),
        Some(rest) => match strings::signed_value(strings::trimmed(rest)) {
            Err(error) => Err(
                "git rev-parse --since="@ + spec + " answered "@ + strings::quoted_text(answer)
                    + ": "@ + error.text(),
            ),
            Ok(epoch) => if !means_now(spec) && near(now as int, epoch, NOW_SLACK_SECONDS as int) {
                Err(unparsed_text(spec))
            } else {
                Ok(epoch as i64)
            },
        },
    }
}

/// The absolute instant of a date, by git's own parser. Input that it cannot
/// parse is rejected.
pub open spec fn date_step(
    git: git::GitView,
    repo: Text,
    spec: Text,
    now: i64,
    heard: Seq<ask::ReplyView>,
) -> ask::StepView<Result<i64, Text>> {
    if strings::trimmed(spec).len() == 0 {
        ask::done(Err("an empty window is not a date git can parse"@), Seq::empty())
    } else if heard.len() == 0 {
        ask::run(repo, date_args(spec))
    } else {
        match identify::run_fault(git, repo, date_args(spec), heard[0]) {
            Some(reason) => ask::done(Err(reason), Seq::empty()),
            None => ask::done(date_in(spec, heard[0].answer(), now), Seq::empty()),
        }
    }
}

fn settled(found: Result<i64, String>) -> (out: Step<Instant>)
    ensures
        out@ == ask::done((Instant { found })@, Seq::empty()),
{
    let problems: Vec<String> = Vec::new();
    assert(strings::views(problems@) =~= Seq::empty());
    Step::Done { value: Instant { found }, problems }
}

/// What git's answer says, judged at an instant.
pub fn read_date(spec: &str, answer: &str, now: i64) -> (out: Instant)
    ensures
        out@ == date_in(spec@, answer@, now),
{
    let rest = match strings::strip_prefix(answer, "--max-age=") {
        Some(rest) => rest,
        None => {
            let start = strings::cat4(
                "git rev-parse --since=",
                spec,
                " answered ",
                strings::quoted(answer).as_str(),
            );
            return Instant { found: Err(strings::cat2(start.as_str(), ", not --max-age")) };
        },
    };
    let epoch = match strings::parse_signed(strings::trim(rest.as_str()).as_str()) {
        Ok(epoch) => epoch,
        Err(error) => {
            let start = strings::cat4(
                "git rev-parse --since=",
                spec,
                " answered ",
                strings::quoted(answer).as_str(),
            );
            let reason = strings::cat3(start.as_str(), ": ", error.message());
            return Instant { found: Err(reason) };
        },
    };
    let known = strings::names_have(
        SPECS_MEANING_NOW.as_slice(),
        strings::lowercase(strings::trim(spec).as_str()).as_str(),
    );
    let gap: i128 = now as i128 - epoch as i128;
    if !known && gap <= NOW_SLACK_SECONDS as i128 && gap >= -(NOW_SLACK_SECONDS as i128) {
        let reason = strings::cat3(
            "git could not parse the window ",
            strings::quoted(spec).as_str(),
            ": it resolved to the current time, which would render as an empty digest. Try a spec like `midnight`, `yesterday`, `2 hours ago` or `2026-08-01`.",
        );
        return Instant { found: Err(reason) };
    }
    Instant { found: Ok(epoch) }
}

/// Resolves a date at a given instant.
pub fn resolve_date_at(
    git: &Git,
    repo: &str,
    spec: &str,
    now: i64,
    heard: &Vec<Reply>,
) -> (out: Step<Instant>)
    ensures
        out@ == date_step(git@, repo@, spec@, now, strings::views(heard@)),
{
    let ghost all = strings::views(heard@);
    if strings::is_empty(strings::trim(spec).as_str()) {
        return settled(Err("an empty window is not a date git can parse".to_string()));
    }
    let option = strings::cat2("--since=", spec);
    let names = ["rev-parse", option.as_str()];
    assert(strings::views(names@) =~= date_args(spec@));
    if heard.len() == 0 {
        return ask::ask_run(repo, names.as_slice());
    }
    assert(all[0] == heard@[0]@);
    let args = strings::strings_of(names.as_slice());
    assert(strings::views(args@).len() == args@.len());
    if let Some(reason) = identify::explain_run(git, repo, &args, &heard[0]) {
        return settled(Err(reason));
    }
    let value = read_date(spec, heard[0].answer().as_str(), now);
    settled(value.found)
}

impl Git {
    /// Resolves a `--since`-style date to an absolute instant, judged at the current
    /// one. Input that git cannot parse is rejected.
    pub fn resolve_date(&self, repo: &str, spec: &str, heard: &Vec<Reply>) -> (out: Step<Instant>)
        ensures
            exists|now: i64| out@ == #[trigger] date_step(self@, repo@, spec@, now, strings::views(heard@)),
    {
        let now = clock::now();
        resolve_date_at(self, repo, spec, now, heard)
    }
}

/// A date that git could not parse is never accepted: what is accepted either
/// means now or is not within the slack of it.
pub proof fn law_an_unparsed_date_is_never_accepted(spec: Text, answer: Text, now: i64)
    requires
        date_in(spec, answer, now) is Ok,
    ensures
        means_now(spec) || !near(
            now as int,
            date_in(spec, answer, now)->Ok_0 as int,
            NOW_SLACK_SECONDS as int,
        ),
{
}

// ---------------------------------------------------------------------------
// A repository to parse dates in
// ---------------------------------------------------------------------------

/// Nothing, or what went wrong.
#[derive(Debug, PartialEq, Eq)]
pub struct Outcome {
    pub result: Result<(), String>,
}

impl View for Outcome {
    type V = Result<(), Text>;

    open spec fn view(&self) -> Result<(), Text> {
        match self.result {
            Ok(()) => Ok(()),
            Err(reason) => Err(reason@),
        }
    }
}

pub open spec fn init_args() -> Seq<Text> {
    seq!["init"@, "--bare"@, "-q"@]
}

/// What making the repository came to.
pub open spec fn initialised(
    git: git::GitView,
    path: Text,
    reply: ask::ReplyView,
) -> Result<(), Text> {
    match reply {
        ask::ReplyView::Ran(out) => if out.succeeded() {
            Ok(())
        } else {
            Err(
                "could not create the date-reference repository at "@ + path + ": "@
                    + out.complaint(),
            )
        },
        ask::ReplyView::TimedOut => Err(
            git.program + " init --bare timed out after "@ + ask::span_text(git.timeout as nat),
        ),
        _ => Err(identify::not_run(git, path, "init"@, reply)),
    }
}

/// Making the repository, from the directory on.
pub open spec fn make_step(
    git: git::GitView,
    path: Text,
    heard: Seq<ask::ReplyView>,
) -> ask::StepView<Result<(), Text>> {
    if heard.len() == 0 {
        ask::StepView::Ask(ask::AskView::MakeDirectory { path })
    } else {
        match heard[0] {
            ask::ReplyView::NotMade(error) => ask::done(
                Err("could not create "@ + path + ": "@ + error),
                Seq::empty(),
            ),
            _ => if heard.len() == 1 {
                ask::run(path, init_args())
            } else {
                ask::done(initialised(git, path, heard[1]), Seq::empty())
            },
        }
    }
}

/// An empty bare repository at a path, made where it is not there yet. An
/// enclosing repository also answers there, and must never be mistaken for it,
/// so the git directory that answered is compared with the path.
pub open spec fn reference_step(
    git: git::GitView,
    path: Text,
    heard: Seq<ask::ReplyView>,
) -> ask::StepView<Result<(), Text>> {
    if heard.len() == 0 {
        ask::run(path, stages::git_dir_args())
    } else if !heard[0].ok() {
        make_step(git, path, heard.skip(1))
    } else if heard.len() == 1 {
        identify::canonicalize(heard[0].answer())
    } else if heard.len() == 2 {
        identify::canonicalize(path)
    } else if paths::same_place(
        identify::canonical_of(heard[1], heard[0].answer()),
        identify::canonical_of(heard[2], path),
    ) {
        ask::done(Ok(()), Seq::empty())
    } else {
        make_step(git, path, heard.skip(3))
    }
}

fn concluded(result: Result<(), String>) -> (out: Step<Outcome>)
    ensures
        out@ == ask::done((Outcome { result })@, Seq::empty()),
{
    let problems: Vec<String> = Vec::new();
    assert(strings::views(problems@) =~= Seq::empty());
    Step::Done { value: Outcome { result }, problems }
}

fn judge_init(git: &Git, path: &str, reply: &Reply) -> (out: Outcome)
    ensures
        out@ == initialised(git@, path@, reply@),
{
    match reply {
        Reply::Ran(out) => if out.ok() {
            Outcome { result: Ok(()) }
        } else {
            Outcome {
                result: Err(
                    strings::cat4(
                        "could not create the date-reference repository at ",
                        path,
                        ": ",
                        out.stderr_text().as_str(),
                    ),
                ),
            }
        },
        Reply::TimedOut => Outcome {
            result: Err(
                strings::cat3(
                    git.program(),
                    " init --bare timed out after ",
                    ask::span(git.timeout()).as_str(),
                ),
            ),
        },
        _ => Outcome { result: Err(identify::explain_not_run(git, path, "init", reply)) },
    }
}

fn make(git: &Git, path: &str, heard: &[Reply]) -> (out: Step<Outcome>)
    ensures
        out@ == make_step(git@, path@, strings::views(heard@)),
{
    let ghost all = strings::views(heard@);
    if heard.len() == 0 {
        return Step::Ask(Ask::MakeDirectory { path: path.to_string() });
    }
    assert(all[0] == heard@[0]@);
    match &heard[0] {
        Reply::NotMade(error) => {
            return concluded(Err(strings::cat4("could not create ", path, ": ", error.as_str())));
        },
        _ => {},
    }
    if heard.len() == 1 {
        let args = ["init", "--bare", "-q"];
        assert(strings::views(args@) =~= init_args());
        return ask::ask_run(path, args.as_slice());
    }
    assert(all[1] == heard@[1]@);
    let outcome = judge_init(git, path, &heard[1]);
    concluded(outcome.result)
}

impl Git {
    /// Creates, if needed, an empty bare repository used only as a context for
    /// [`Git::resolve_date`] when the session has no checkouts of its own.
    pub fn ensure_date_ref_repo(&self, path: &str, heard: &[Reply]) -> (out: Step<Outcome>)
        ensures
            out@ == reference_step(self@, path@, strings::views(heard@)),
    {
        let ghost all = strings::views(heard@);
        if heard.len() == 0 {
            let args = ["rev-parse", "--path-format=absolute", "--git-dir"];
            assert(strings::views(args@) =~= stages::git_dir_args());
            return ask::ask_run(path, args.as_slice());
        }
        assert(all[0] == heard@[0]@);
        if !heard[0].ok() {
            let rest = vstd::slice::slice_subrange(heard, 1, heard.len());
            assert(strings::views(rest@) =~= all.skip(1));
            return make(self, path, rest);
        }
        let answer = heard[0].answer();
        if heard.len() == 1 {
            return Step::Ask(Ask::Canonicalize { path: answer });
        }
        if heard.len() == 2 {
            return Step::Ask(Ask::Canonicalize { path: path.to_string() });
        }
        assert(all[1] == heard@[1]@);
        assert(all[2] == heard@[2]@);
        let there = identify::canonical(&heard[1], answer.as_str());
        let here = identify::canonical(&heard[2], path);
        if paths::is_same_place(there.as_str(), here.as_str()) {
            return concluded(Ok(()));
        }
        let rest = vstd::slice::slice_subrange(heard, 3, heard.len());
        assert(strings::views(rest@) =~= all.skip(3));
        make(self, path, rest)
    }
}

/// A date is the instant that git printed for it. It is refused exactly where it
/// lies within a slack of now and the text is none of those that mean now.
pub proof fn law_a_date_is_read_as_printed(spec: Text, now: i64, epoch: i64)
    ensures
        ({
            let answer = "--max-age="@ + strings::signed_decimal(epoch as int);
            match date_in(spec, answer, now) {
                Ok(found) => found == epoch && (means_now(spec) || epoch - now
                    > NOW_SLACK_SECONDS || now - epoch > NOW_SLACK_SECONDS),
                Err(_) => !means_now(spec) && -NOW_SLACK_SECONDS <= epoch - now
                    <= NOW_SLACK_SECONDS,
            }
        }),
{
    let written = strings::signed_decimal(epoch as int);
    strings::law_a_prefix_comes_off("--max-age="@, written, written);
    strings::law_a_signed_number_reads_back(epoch as int);
    lemma_written_is_trimmed(epoch as int);
}

proof fn lemma_written_is_trimmed(n: int)
    ensures
        strings::trimmed(strings::signed_decimal(n)) == strings::signed_decimal(n),
{
    reveal_strlit("-");
    let s = strings::signed_decimal(n);
    let digits = strings::decimal(
        (if n < 0 {
            -n
        } else {
            n
        }) as nat,
    );
    strings::lemma_decimal_digits(
        (if n < 0 {
            -n
        } else {
            n
        }) as nat,
    );
    assert(strings::digit(digits[0]) && strings::digit(digits[digits.len() - 1]));
    assert(!strings::white('-'));
    assert(s.last() == digits.last());
    assert(!strings::white(s[0]) && !strings::white(s.last()));
    assert(strings::trimmed_start(s) == s);
    assert(strings::trimmed_end(s) == s);
}

/// What git answers in any other form is an error, never an instant.
pub proof fn law_another_answer_is_no_date(spec: Text, answer: Text, now: i64)
    requires
        date_in(spec, answer, now) is Ok,
    ensures
        strings::begins(answer, "--max-age="@),
        ({
            let rest = answer.skip("--max-age="@.len() as int);
            strings::signed_value(strings::trimmed(rest)) == Ok::<int, strings::NumberError>(
                date_in(spec, answer, now)->Ok_0 as int,
            )
        }),
{
    let rest = answer.skip("--max-age="@.len() as int);
    lemma_signed_fits(strings::trimmed(rest));
}

proof fn lemma_signed_fits(s: Text)
    requires
        strings::signed_value(s) is Ok,
    ensures
        i64::MIN <= strings::signed_value(s)->Ok_0 <= i64::MAX,
{
    if s.len() > 0 && s[0] == '-' {
        lemma_digits_fit(s.drop_first(), 0x8000_0000_0000_0000);
    } else {
        strings::law_only_digits_are_a_number(s, 0x7fff_ffff_ffff_ffff);
    }
}

proof fn lemma_digits_fit(s: Text, max: nat)
    requires
        strings::digits_value(s, max) is Ok,
    ensures
        strings::digits_value(s, max)->Ok_0 <= max,
    decreases s.len(),
{
    if s.len() > 0 {
        lemma_digits_fit(s.drop_last(), max);
    }
}

/// The text of a date goes to git as it is, in the repository that was given; a
/// blank one is refused without asking, and a command that failed is an error.
pub proof fn law_a_date_is_asked_for_as_given(
    git: git::GitView,
    repo: Text,
    spec: Text,
    now: i64,
    heard: Seq<ask::ReplyView>,
)
    ensures
        strings::blank(spec) ==> date_step(git, repo, spec, now, heard) is Done && date_step(
            git,
            repo,
            spec,
            now,
            heard,
        )->value is Err,
        !strings::blank(spec) ==> date_step(git, repo, spec, now, Seq::empty()) == ask::run::<
            Result<i64, Text>,
        >(repo, seq!["rev-parse"@, "--since="@ + spec]),
        !strings::blank(spec) && heard.len() > 0 && !(heard[0] is Ran && heard[0]->Ran_0.code
            == Some(0i32)) ==> date_step(git, repo, spec, now, heard) is Done && date_step(
            git,
            repo,
            spec,
            now,
            heard,
        )->value is Err,
        !strings::blank(spec) && heard.len() > 0 && heard[0] is Ran && heard[0]->Ran_0.code == Some(
            0i32,
        ) ==> date_step(git, repo, spec, now, heard) == ask::done(
            date_in(spec, heard[0].answer(), now),
            Seq::empty(),
        ),
{
    strings::law_trimming_takes_white_space_off_the_ends(spec);
}

/// The repository for dates is the one that was asked for, never one around it:
/// it is taken as it is only where git names that very place, and made in every
/// other case.
pub proof fn law_an_enclosing_repository_is_not_taken(
    git: git::GitView,
    path: Text,
    heard: Seq<ask::ReplyView>,
)
    requires
        reference_step(git, path, heard) is Done,
        reference_step(git, path, heard)->value is Ok,
    ensures
        ({
            ||| heard.len() >= 3 && heard[0].ok() && paths::same_place(
                identify::canonical_of(heard[1], heard[0].answer()),
                identify::canonical_of(heard[2], path),
            )
            ||| heard.len() >= 3 && exists|k: int|
                1 <= k < heard.len() && (#[trigger] heard[k]).ok() && !(heard[k - 1] is NotMade)
        }),
{
    if heard[0].ok() {
        if !paths::same_place(
            identify::canonical_of(heard[1], heard[0].answer()),
            identify::canonical_of(heard[2], path),
        ) {
            assert(heard.skip(3)[1] == heard[4] && heard.skip(3)[0] == heard[3]);
            assert(heard[4].ok() && !(heard[3] is NotMade));
        }
    } else {
        assert(heard.skip(1)[1] == heard[2] && heard.skip(1)[0] == heard[1]);
        assert(heard[2].ok() && !(heard[1] is NotMade));
    }
}

} // verus!
