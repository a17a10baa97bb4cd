//! The terminal report.
//!
//! A person scanning this wants, in order: what window, what came out of it,
//! and what needs attention. Every line leaves this module through [`line`] or
//! [`wrapped`], which is the only place the column budget is enforced. Prose
//! wraps; identifiers truncate.

use vstd::prelude::*;

use crate::by_agent;
use crate::by_agent::Grouping;
use crate::config::Config;
use crate::config;
use crate::model;
use crate::model::{CheckoutDigest, CheckoutReport, Commit, Digest, Note, RepoDigest, Severity, Text,
    OID_COLUMNS};
use crate::render;
use crate::render::markdown;
use crate::render::{Section, WIDTH};
use crate::strings;

verus! {

// ---------------------------------------------------------------------------
// Lines
// ---------------------------------------------------------------------------

/// One line: trailing white space off, cut to the width, ended.
pub open spec fn line_text(s: Text) -> Text {
    render::cut_right(strings::trimmed_end(s), WIDTH as nat).push('\n')
}

/// The single place the width budget is enforced.
fn line(s: &str) -> (out: String)
    ensures
        out@ == line_text(s@),
{
    let mut out = render::truncate_right(strings::trim_end(s).as_str(), WIDTH);
    out.push('\n');
    out
}

/// Prose on its way into lines: the lines already filled, whether there are
/// any, and the one being filled.
#[verifier::ext_equal]
pub struct Wrapping {
    pub done: Text,
    pub continued: bool,
    pub current: Text,
}

/// What a line of wrapped prose begins with.
pub open spec fn indent(continued: bool, first: Text, rest: Text) -> Text {
    if continued {
        rest
    } else {
        first
    }
}

/// How many columns are left beside a prefix, at least one.
pub open spec fn room_beside(prefix: Text) -> nat {
    if render::columns(prefix) < WIDTH {
        (WIDTH - render::columns(prefix)) as nat
    } else {
        1
    }
}

/// The prose with one more word: on the line being filled where it fits, on a
/// line of its own where it does not.
pub open spec fn with_word(prose: Wrapping, word: Text, first: Text, rest: Text) -> Wrapping {
    let prefix = indent(prose.continued, first, rest);
    let candidate = if prose.current.len() == 0 {
        word
    } else {
        prose.current + " "@ + word
    };
    if prose.current.len() == 0 || render::columns(candidate) <= room_beside(prefix) {
        Wrapping { current: candidate, ..prose }
    } else {
        Wrapping {
            done: prose.done + line_text(prefix + prose.current),
            continued: true,
            current: word,
        }
    }
}

pub open spec fn with_words(words: Seq<Text>, first: Text, rest: Text) -> Wrapping
    decreases words.len(),
{
    if words.len() == 0 {
        Wrapping { done: Seq::empty(), continued: false, current: Seq::empty() }
    } else {
        with_word(with_words(words.drop_last(), first, rest), words.last(), first, rest)
    }
}

/// Prose wrapped into lines, the first behind `first` and the others behind
/// `rest`.
pub open spec fn wrapped_text(first: Text, rest: Text, s: Text) -> Text {
    let prose = with_words(strings::words(s), first, rest);
    if prose.current.len() == 0 {
        prose.done
    } else {
        prose.done + line_text(indent(prose.continued, first, rest) + prose.current)
    }
}

/// Greedy word wrap. Prose wraps rather than truncates, because truncating an
/// explanation removes the explanation.
fn wrapped(first: &str, rest: &str, s: &str) -> (out: String)
    ensures
        out@ == wrapped_text(first@, rest@, s@),
{
    broadcast use strings::group_lists;

    let words = strings::split_words(s);
    let ghost all = strings::views(words@);
    let mut out = String::new();
    let mut continued = false;
    let mut current = String::new();
    for i in 0..words.len()
        invariant
            all == strings::views(words@),
            with_words(all.take(i as int), first@, rest@) == (Wrapping {
                done: out@,
                continued,
                current: current@,
            }),
    {
        broadcast use strings::group_lists;

        assert(all.take(i as int).push(all[i as int]) == all.take(i + 1));
        let word = &words[i];
        assert(all[i as int] == word@);
        let prefix = if continued {
            rest
        } else {
            first
        };
        let used = render::display_width(prefix);
        let budget: usize = if used < WIDTH {
            WIDTH - used
        } else {
            1
        };
        if strings::is_empty(current.as_str()) {
            current = word.clone();
        } else {
            let candidate = strings::cat3(current.as_str(), " ", word.as_str());
            if render::fits(candidate.as_str(), budget) {
                current = candidate;
            } else {
                out.append(line(strings::cat2(prefix, current.as_str()).as_str()).as_str());
                continued = true;
                current = word.clone();
            }
        }
    }
    assert(all.take(all.len() as int) =~= all);
    if !strings::is_empty(current.as_str()) {
        let prefix = if continued {
            rest
        } else {
            first
        };
        out.append(line(strings::cat2(prefix, current.as_str()).as_str()).as_str());
    }
    out
}

/// A warning-marked line, indented under its checkout.
pub open spec fn marked_text(loud: bool, message: Text) -> Text {
    wrapped_text(
        if loud {
            "      ! "@
        } else {
            "      "@
        },
        "        "@,
        message,
    )
}

fn marked(loud: bool, message: &str) -> (out: String)
    ensures
        out@ == marked_text(loud, message@),
{
    if loud {
        wrapped("      ! ", "        ", message)
    } else {
        wrapped("      ", "        ", message)
    }
}

// ---------------------------------------------------------------------------
// The header
// ---------------------------------------------------------------------------

pub open spec fn header_text(digest: model::DigestView) -> Text {
    let window = digest.window;
    let start = "standup \u{2014} since "@ + window.since.full();
    let opening = match window.until {
        Some(until) => line_text(start + " until "@ + until.full()) + line_text(
            "  generated "@ + digest.generated_at.full(),
        ),
        None => line_text(start + " (generated "@ + render::generated_text(digest) + ")"@),
    };
    match render::window_text(window) {
        Some(note) => opening + wrapped_text("  "@, "  "@, note),
        None => opening,
    }
}

/// The window, in the unambiguous form, and why it is this window.
fn header(digest: &Digest) -> (out: String)
    ensures
        out@ == header_text(digest@),
{
    let window = &digest.window;
    let start = strings::cat2("standup \u{2014} since ", window.since.full().as_str());
    let mut out = match &window.until {
        Some(until) => {
            let first = strings::cat3(start.as_str(), " until ", until.full().as_str());
            let second = strings::cat2("  generated ", digest.generated_at.full().as_str());
            strings::cat2(line(first.as_str()).as_str(), line(second.as_str()).as_str())
        },
        None => line(
            strings::cat4(
                start.as_str(),
                " (generated ",
                render::generated_display(digest).as_str(),
                ")",
            ).as_str(),
        ),
    };
    if let Some(note) = render::window_note(window) {
        out.append(wrapped("  ", "  ", note.as_str()).as_str());
    }
    out
}

// ---------------------------------------------------------------------------
// One repository
// ---------------------------------------------------------------------------

/// `s` with spaces in front, up to so many characters.
pub open spec fn padded_left(s: Text, width: nat) -> Text {
    if s.len() < width {
        strings::repeated(' ', (width - s.len()) as nat) + s
    } else {
        s
    }
}

/// `s` with spaces behind, up to so many characters.
pub open spec fn padded_right(s: Text, width: nat) -> Text {
    if s.len() < width {
        s + strings::repeated(' ', (width - s.len()) as nat)
    } else {
        s
    }
}

fn pad_left(s: &str, width: usize) -> (out: String)
    ensures
        out@ == padded_left(s@, width as nat),
{
    let n = s.unicode_len();
    if n < width {
        strings::cat2(strings::repeat(' ', width - n).as_str(), s)
    } else {
        s.to_string()
    }
}

fn pad_right(s: &str, width: usize) -> (out: String)
    ensures
        out@ == padded_right(s@, width as nat),
{
    let n = s.unicode_len();
    if n < width {
        strings::cat2(s, strings::repeat(' ', width - n).as_str())
    } else {
        s.to_string()
    }
}

/// One commit's line.
pub open spec fn commit_text(commit: model::CommitView, with_date: bool) -> Text {
    let width: nat = if with_date {
        16
    } else {
        5
    };
    let budget: nat = if with_date {
        44
    } else {
        55
    };
    line_text(
        "        "@ + padded_left(render::instant_text(commit.committed, with_date), width) + "  "@
            + padded_right(
            strings::leading(commit.oid, OID_COLUMNS as nat),
            OID_COLUMNS as nat,
        ) + "  "@ + render::cut_right(strings::trimmed(commit.subject), budget),
    )
}

pub open spec fn commits_text(commits: Seq<model::CommitView>, with_date: bool) -> Text
    decreases commits.len(),
{
    if commits.len() == 0 {
        Seq::empty()
    } else {
        commits_text(commits.drop_last(), with_date) + commit_text(commits.last(), with_date)
    }
}

/// The line that counts the commits not listed.
pub open spec fn remainder_text(shown: nat, held_back: nat) -> Text {
    if held_back == 0 {
        Seq::empty()
    } else {
        let count = if shown == 0 {
            render::counted(held_back, "commit"@, "commits"@)
        } else {
            render::counted(held_back, "more commit"@, "more commits"@)
        };
        line_text("        \u{2026} "@ + count + " not listed"@)
    }
}

pub open spec fn commit_list_text(
    commits: Seq<model::CommitView>,
    max: nat,
    with_date: bool,
) -> Text {
    let shown = render::shown_commits(commits, max);
    commits_text(shown, with_date) + remainder_text(shown.len(), render::held_back(commits, max))
}

fn commit_line(commit: &Commit, with_date: bool) -> (out: String)
    ensures
        out@ == commit_text(commit@, with_date),
{
    let width: usize = if with_date {
        16
    } else {
        5
    };
    let budget: usize = if with_date {
        44
    } else {
        55
    };
    let when = pad_left(render::commit_time(&commit.committed, with_date).as_str(), width);
    let oid = pad_right(commit.short_oid().as_str(), OID_COLUMNS);
    let subject = render::truncate_right(strings::trim(commit.subject.as_str()).as_str(), budget);
    let start = strings::cat4("        ", when.as_str(), "  ", oid.as_str());
    line(strings::cat3(start.as_str(), "  ", subject.as_str()).as_str())
}

fn commit_lines(report: &CheckoutReport, max: usize, with_date: bool) -> (out: String)
    ensures
        out@ == commit_list_text(report@.commits, max as nat, with_date),
{
    broadcast use strings::group_lists;

    let (shown, held_back) = render::listed_commits(report, max);
    let ghost all = strings::views(shown@);
    let mut out = String::new();
    for i in 0..shown.len()
        invariant
            all == strings::views(shown@),
            out@ == commits_text(all.take(i as int), with_date),
    {
        broadcast use strings::group_lists;

        assert(all.take(i as int).push(all[i as int]) == all.take(i + 1));
        assert(all[i as int] == shown@[i as int]@);
        out.append(commit_line(shown[i], with_date).as_str());
    }
    assert(all.take(all.len() as int) =~= all);
    let ghost before = out@;
    if held_back > 0 {
        let counted = if shown.len() == 0 {
            render::quantity(held_back, "commit", "commits")
        } else {
            render::quantity(held_back, "more commit", "more commits")
        };
        out.append(
            line(
                strings::cat3("        \u{2026} ", counted.as_str(), " not listed").as_str(),
            ).as_str(),
        );
    } else {
        assert(before + Seq::<char>::empty() =~= before);
    }
    out
}

/// Where a checkout is.
pub open spec fn place_text(report: model::ReportView, width: nat, home: Option<Text>) -> Text {
    let branch = render::cut_right(render::head_text(report.head), width);
    let budget: nat = if 6 + width + 12 <= WIDTH {
        (WIDTH - 6 - width) as nat
    } else {
        12
    };
    line_text(
        "    "@ + branch + strings::repeated(
            ' ',
            (width - render::columns(branch) + 2) as nat,
        ) + render::short_path(render::from_home(report.path, home), budget),
    )
}

fn place_line(report: &CheckoutReport, width: usize, home: &Option<String>) -> (out: String)
    requires
        width <= 30,
    ensures
        out@ == place_text(report@, width as nat, strings::view_of(*home)),
{
    let branch = render::truncate_right(render::head_label(&report.head).as_str(), width);
    proof {
        render::law_truncation_keeps_the_width(render::head_text(report@.head), width as nat);
    }
    let path = render::shorten_path(report.path.as_str(), WIDTH - 6 - width, home);
    let gap = strings::repeat(' ', width - render::display_width(branch.as_str()) + 2);
    line(strings::cat4("    ", branch.as_str(), gap.as_str(), path.as_str()).as_str())
}

/// A remark about a HEAD that the branch column cannot carry.
pub open spec fn remark_text(remark: Option<(Text, bool)>) -> Text {
    match remark {
        Some(remark) => marked_text(remark.1, remark.0),
        None => Seq::empty(),
    }
}

/// Every problem, each on lines of its own.
pub open spec fn problems_text(problems: Seq<Text>) -> Text
    decreases problems.len(),
{
    if problems.len() == 0 {
        Seq::empty()
    } else {
        problems_text(problems.drop_last()) + marked_text(true, problems.last())
    }
}

pub open spec fn sentence_text(sentence: Option<Text>) -> Text {
    match sentence {
        Some(sentence) => wrapped_text("      "@, "        "@, sentence),
        None => Seq::empty(),
    }
}

pub open spec fn credit_text(credit: Option<(Text, Text)>) -> Text {
    match credit {
        Some(credit) => wrapped_text("      "@, "        "@, credit.0 + ": "@ + credit.1),
        None => Seq::empty(),
    }
}

/// What a checkout did, or that it is quiet. The remark about its HEAD has
/// already said why it is empty, so then nothing is added.
pub open spec fn deed_text(report: model::ReportView) -> Text {
    if report.activity() == model::Activity::Quiet {
        if render::head_remark(report.head, render::REF_COLUMNS as nat) is None {
            line_text("      "@ + "quiet"@)
        } else {
            Seq::empty()
        }
    } else {
        wrapped_text(
            "      "@,
            "        "@,
            strings::joined(render::clauses(report, render::REF_COLUMNS as nat), ", "@),
        )
    }
}

/// One checkout: where it is, what is wrong with it, who was there, what it
/// did, what is only here, what is not committed, and its commits.
#[verifier::opaque]
pub open spec fn checkout_text(
    checkout: model::CheckoutView,
    width: nat,
    config: config::ConfigView,
    with_date: bool,
    list: bool,
) -> Text {
    let report = checkout.report;
    place_text(report, width, config.home) + remark_text(
        render::head_remark(report.head, render::REF_COLUMNS as nat),
    ) + problems_text(report.problems) + credit_text(render::credited(checkout)) + deed_text(report)
        + sentence_text(render::unpushed_text(report.unpushed)) + sentence_text(
        render::dirty_text(report.dirty),
    ) + if list {
        commit_list_text(report.commits, config.max_commits as nat, with_date)
    } else {
        Seq::empty()
    }
}

fn remark_lines(remark: &Option<(String, bool)>) -> (out: String)
    ensures
        out@ == remark_text(strings::view_of(*remark)),
{
    match remark {
        Some((note, loud)) => marked(*loud, note.as_str()),
        None => String::new(),
    }
}

fn problem_lines(problems: &Vec<String>) -> (out: String)
    ensures
        out@ == problems_text(strings::views(problems@)),
{
    broadcast use strings::group_lists;

    let ghost all = strings::views(problems@);
    let mut out = String::new();
    for i in 0..problems.len()
        invariant
            all == strings::views(problems@),
            out@ == problems_text(all.take(i as int)),
    {
        broadcast use strings::group_lists;

        assert(all.take(i as int).push(all[i as int]) == all.take(i + 1));
        assert(all[i as int] == problems@[i as int]@);
        out.append(marked(true, problems[i].as_str()).as_str());
    }
    out
}

fn sentence_lines(sentence: &Option<String>) -> (out: String)
    ensures
        out@ == sentence_text(strings::view_of(*sentence)),
{
    match sentence {
        Some(sentence) => wrapped("      ", "        ", sentence.as_str()),
        None => String::new(),
    }
}

fn credit_lines(checkout: &CheckoutDigest) -> (out: String)
    ensures
        out@ == credit_text(render::credited(checkout@)),
{
    match render::attribution(checkout) {
        Some((label, who)) => wrapped(
            "      ",
            "        ",
            strings::cat3(label, ": ", who.as_str()).as_str(),
        ),
        None => String::new(),
    }
}

fn deed_lines(report: &CheckoutReport, has_remark: bool) -> (out: String)
    requires
        has_remark == (render::head_remark(report@.head, render::REF_COLUMNS as nat) is Some),
    ensures
        out@ == deed_text(report@),
{
    match render::quiet_word(report.activity()) {
        Some(word) => if has_remark {
            String::new()
        } else {
            line(strings::cat2("      ", word).as_str())
        },
        None => wrapped(
            "      ",
            "        ",
            strings::join(&render::checkout_clauses(report, render::REF_COLUMNS), ", ").as_str(),
        ),
    }
}

fn checkout_block(
    checkout: &CheckoutDigest,
    width: usize,
    config: &Config,
    with_date: bool,
    list: bool,
) -> (out: String)
    requires
        width <= 30,
    ensures
        out@ == checkout_text(checkout@, width as nat, config@, with_date, list),
{
    reveal(checkout_text);
    let report = &checkout.report;
    let mut out = place_line(report, width, &config.home);
    let remark = render::head_note(&report.head, render::REF_COLUMNS);
    out.append(remark_lines(&remark).as_str());
    out.append(problem_lines(&report.problems).as_str());
    out.append(credit_lines(checkout).as_str());
    out.append(deed_lines(report, remark.is_some()).as_str());
    out.append(sentence_lines(&render::unpushed_sentence(&report.unpushed)).as_str());
    out.append(sentence_lines(&render::dirty_sentence(&report.dirty)).as_str());
    let listed = if list {
        commit_lines(report, config.max_commits, with_date)
    } else {
        String::new()
    };
    out.append(listed.as_str());
    out
}

pub open spec fn checkouts_text(
    checkouts: Seq<model::CheckoutView>,
    width: nat,
    config: config::ConfigView,
    with_date: bool,
    list: bool,
) -> Text
    decreases checkouts.len(),
{
    if checkouts.len() == 0 {
        Seq::empty()
    } else {
        checkouts_text(checkouts.drop_last(), width, config, with_date, list) + checkout_text(
            checkouts.last(),
            width,
            config,
            with_date,
            list,
        )
    }
}

/// How many columns a repository's name may take beside its numbers.
pub open spec fn name_room(stats: Text) -> nat {
    if render::columns(stats) + 4 + 8 <= WIDTH {
        (WIDTH - 4 - render::columns(stats)) as nat
    } else {
        8
    }
}

/// How many spaces stand between a repository's name and its numbers.
pub open spec fn name_gap(name: Text, stats: Text) -> nat {
    if 2 + render::columns(name) + render::columns(stats) + 2 <= WIDTH {
        (WIDTH - 2 - render::columns(name) - render::columns(stats)) as nat
    } else {
        2
    }
}

/// One repository: a header line with the numbers right-aligned, then its
/// checkouts.
pub open spec fn repo_text(
    repo: model::RepoView,
    config: config::ConfigView,
    with_date: bool,
    list: bool,
) -> Text {
    let stats = render::block_text(repo.commits, repo.churn);
    let name = render::cut_right(repo.name, name_room(stats));
    line_text("  "@ + name + strings::repeated(' ', name_gap(name, stats)) + stats)
        + checkouts_text(
        render::checkouts_sorted(repo.checkouts),
        render::branch_width(repo.checkouts),
        config,
        with_date,
        list,
    )
}

fn repo_line(repo: &RepoDigest) -> (out: String)
    ensures
        out@ == ({
            let stats = render::block_text(repo@.commits, repo@.churn);
            let name = render::cut_right(repo@.name, name_room(stats));
            line_text("  "@ + name + strings::repeated(' ', name_gap(name, stats)) + stats)
        }),
{
    let stats = render::repo_stats(repo.commits, repo.churn);
    let taken = render::display_width(stats.as_str());
    let room: usize = if taken <= WIDTH - 12 {
        WIDTH - 4 - taken
    } else {
        8
    };
    let name = render::truncate_right(repo.name.as_str(), room);
    proof {
        render::law_truncation_keeps_the_width(repo@.name, room as nat);
    }
    let used = render::display_width(name.as_str());
    let gap: usize = if taken <= WIDTH && used + taken <= WIDTH - 4 {
        WIDTH - 2 - used - taken
    } else {
        2
    };
    line(
        strings::cat4(
            "  ",
            name.as_str(),
            strings::repeat(' ', gap).as_str(),
            stats.as_str(),
        ).as_str(),
    )
}

fn checkout_blocks(
    checkouts: &Vec<&CheckoutDigest>,
    width: usize,
    config: &Config,
    with_date: bool,
    list: bool,
) -> (out: String)
    requires
        width <= 30,
    ensures
        out@ == checkouts_text(
            strings::views(checkouts@),
            width as nat,
            config@,
            with_date,
            list,
        ),
{
    broadcast use strings::group_lists;

    let ghost all = strings::views(checkouts@);
    let mut out = String::new();
    for i in 0..checkouts.len()
        invariant
            all == strings::views(checkouts@),
            width <= 30,
            out@ == checkouts_text(all.take(i as int), width as nat, config@, with_date, list),
    {
        broadcast use strings::group_lists;

        assert(all.take(i as int).push(all[i as int]) == all.take(i + 1));
        assert(all[i as int] == checkouts@[i as int]@);
        out.append(checkout_block(checkouts[i], width, config, with_date, list).as_str());
    }
    assert(all.take(all.len() as int) =~= all);
    out
}

fn repo_block(repo: &RepoDigest, config: &Config, with_date: bool, list: bool) -> (out: String)
    ensures
        out@ == repo_text(repo@, config@, with_date, list),
{
    let mut out = repo_line(repo);
    let width = render::branch_column(repo);
    let checkouts = render::sorted_checkouts(repo);
    out.append(checkout_blocks(&checkouts, width, config, with_date, list).as_str());
    out
}

// ---------------------------------------------------------------------------
// The report
// ---------------------------------------------------------------------------

pub open spec fn repos_text(
    repos: Seq<model::RepoView>,
    config: config::ConfigView,
    with_date: bool,
    list: bool,
) -> Text
    decreases repos.len(),
{
    if repos.len() == 0 {
        Seq::empty()
    } else {
        (repos_text(repos.drop_last(), config, with_date, list) + seq!['\n']) + repo_text(
            repos.last(),
            config,
            with_date,
            list,
        )
    }
}

pub open spec fn names_of(repos: Seq<model::RepoView>) -> Seq<Text> {
    Seq::new(repos.len(), |i: int| repos[i].name)
}

/// The names of the quiet repositories. They are summarised, not dropped.
pub open spec fn quiet_text(repos: Seq<model::RepoView>) -> Text {
    let quiet = model::quiet_among(repos);
    if quiet.len() == 0 {
        Seq::empty()
    } else {
        seq!['\n'] + wrapped_text(
            "  quiet: "@,
            "         "@,
            strings::joined(names_of(quiet), ", "@),
        )
    }
}

/// The sentence a grouped report begins with: what a reader has to know before
/// trusting a number in it.
pub open spec fn caveat_text(grouping: Option<by_agent::GroupingView>) -> Text {
    match grouping {
        Some(grouping) => wrapped_text("  "@, "  "@, grouping.warning()),
        None => Seq::empty(),
    }
}

/// What stands above the repositories of a group: its name and its numbers.
pub open spec fn heading_text(section: render::SectionView) -> Text {
    match section.heading {
        None => Seq::empty(),
        Some(heading) => seq!['\n'] + wrapped_text(
            "  "@,
            "    "@,
            heading + match section.stats {
                Some(stats) => " \u{2014} "@ + stats,
                None => ""@,
            },
        ),
    }
}

/// The repositories of a section. A group names its own quiet ones: one
/// repository can be busy in one group and quiet in another.
#[verifier::opaque]
pub open spec fn section_text(
    section: render::SectionView,
    config: config::ConfigView,
    with_date: bool,
    list: bool,
) -> Text {
    heading_text(section) + repos_text(
        model::busy_among(section.repos),
        config,
        with_date,
        list,
    ) + if section.heading is Some {
        quiet_text(section.repos)
    } else {
        Seq::empty()
    }
}

pub open spec fn all_sections_text(
    sections: Seq<render::SectionView>,
    config: config::ConfigView,
    with_date: bool,
    list: bool,
) -> Text
    decreases sections.len(),
{
    if sections.len() == 0 {
        Seq::empty()
    } else {
        all_sections_text(sections.drop_last(), config, with_date, list) + section_text(
            sections.last(),
            config,
            with_date,
            list,
        )
    }
}

/// What came out of the window. An empty screen and a quiet day never look the
/// same.
pub open spec fn body_text(
    digest: model::DigestView,
    config: config::ConfigView,
    sections: Seq<render::SectionView>,
) -> Text {
    if digest.repos.len() == 0 {
        wrapped_text("  "@, "  "@, "No repositories were found in this session."@)
    } else if !render::any_busy(sections) {
        wrapped_text(
            "  "@,
            "  "@,
            "Nothing landed in this window, across "@ + render::counted(
                digest.repos.len(),
                "repository"@,
                "repositories"@,
            ) + "."@,
        )
    } else {
        line_text(
            "  "@ + render::block_text(
                model::commit_total(digest.repos),
                model::churn_total(digest.repos),
            ) + "  across "@ + render::counted(
                digest.repos.len(),
                "repository"@,
                "repositories"@,
            ),
        ) + all_sections_text(
            sections,
            config,
            render::needs_dates(digest),
            !(digest.window.source is Rollup),
        )
    }
}

/// The quiet repositories, where no group has named its own.
pub open spec fn closing_text(
    digest: model::DigestView,
    sections: Seq<render::SectionView>,
) -> Text {
    if render::no_headings(sections) || !render::any_busy(sections) {
        quiet_text(render::repos_sorted(digest.repos))
    } else {
        Seq::empty()
    }
}

pub open spec fn note_text(note: Note<Text>) -> Text {
    match note.severity {
        Severity::Warning => wrapped_text("    ! "@, "      "@, note.message),
        Severity::Info => wrapped_text("    - "@, "      "@, note.message),
    }
}

pub open spec fn note_list_text(notes: Seq<Note<Text>>) -> Text
    decreases notes.len(),
{
    if notes.len() == 0 {
        Seq::empty()
    } else {
        note_list_text(notes.drop_last()) + note_text(notes.last())
    }
}

/// Notes belong to the session rather than to any one checkout, so they sit at
/// the end.
pub open spec fn notes_text(notes: Seq<Note<Text>>) -> Text {
    if notes.len() == 0 {
        Seq::empty()
    } else {
        seq!['\n'] + line_text("  notes"@) + note_list_text(notes)
    }
}

/// The whole terminal report, grouped as the configuration asks.
pub open spec fn report_text(digest: model::DigestView, config: config::ConfigView) -> Text {
    let grouping = render::grouping_asked(digest, config);
    let sections = render::sections_of(digest, grouping);
    header_text(digest) + caveat_text(grouping) + seq!['\n'] + body_text(digest, config, sections)
        + closing_text(digest, sections) + notes_text(digest.notes)
}

fn blank() -> (out: String)
    ensures
        out@ == seq!['\n'],
{
    let mut out = String::new();
    out.push('\n');
    assert(out@ =~= seq!['\n']);
    out
}

fn repo_blocks(
    repos: &Vec<&RepoDigest>,
    config: &Config,
    with_date: bool,
    list: bool,
) -> (out: String)
    ensures
        out@ == repos_text(strings::views(repos@), config@, with_date, list),
{
    broadcast use strings::group_lists;

    let ghost all = strings::views(repos@);
    let mut out = String::new();
    for i in 0..repos.len()
        invariant
            all == strings::views(repos@),
            out@ == repos_text(all.take(i as int), config@, with_date, list),
    {
        broadcast use strings::group_lists;

        assert(all.take(i as int).push(all[i as int]) == all.take(i + 1));
        assert(all[i as int] == repos@[i as int]@);
        out.append(blank().as_str());
        out.append(repo_block(repos[i], config, with_date, list).as_str());
    }
    assert(all.take(all.len() as int) =~= all);
    out
}

/// The names of repositories, in order.
pub fn repo_names(repos: &Vec<&RepoDigest>) -> (out: Vec<String>)
    ensures
        strings::views(out@) == names_of(strings::views(repos@)),
{
    broadcast use strings::group_lists;

    let ghost all = names_of(strings::views(repos@));
    let mut out: Vec<String> = Vec::new();
    for i in 0..repos.len()
        invariant
            all == names_of(strings::views(repos@)),
            strings::views(out@) == all.take(i as int),
    {
        broadcast use strings::group_lists;

        assert(strings::views(repos@)[i as int] == repos@[i as int]@);
        assert(all[i as int] == repos@[i as int].name@);
        out.push(repos[i].name.clone());
    }
    assert(all.take(all.len() as int) =~= all);
    out
}

fn quiet_lines(repos: &Vec<&RepoDigest>) -> (out: String)
    ensures
        out@ == quiet_text(strings::views(repos@)),
{
    let quiet = model::quiet_of(repos);
    assert(strings::views(quiet@).len() == quiet@.len());
    if quiet.len() == 0 {
        return String::new();
    }
    let names = strings::join(&repo_names(&quiet), ", ");
    strings::cat2(
        blank().as_str(),
        wrapped("  quiet: ", "         ", names.as_str()).as_str(),
    )
}

fn caveat_lines(grouping: &Option<Grouping>) -> (out: String)
    ensures
        out@ == caveat_text(strings::view_of(*grouping)),
{
    match grouping {
        Some(grouping) => wrapped("  ", "  ", grouping.caveat().as_str()),
        None => String::new(),
    }
}

fn section_block(section: &Section, config: &Config, with_date: bool, list: bool) -> (out: String)
    ensures
        out@ == section_text(section@, config@, with_date, list),
{
    reveal(section_text);
    let mut out = match &section.heading {
        None => String::new(),
        Some(heading) => {
            let stats = match &section.stats {
                Some(stats) => strings::cat2(" \u{2014} ", stats.as_str()),
                None => "".to_string(),
            };
            let told = strings::cat2(heading.as_str(), stats.as_str());
            strings::cat2(blank().as_str(), wrapped("  ", "    ", told.as_str()).as_str())
        },
    };
    let busy = model::busy_of(&section.repos);
    out.append(repo_blocks(&busy, config, with_date, list).as_str());
    let quiet = if section.heading.is_some() {
        quiet_lines(&section.repos)
    } else {
        String::new()
    };
    out.append(quiet.as_str());
    out
}

fn section_blocks(
    sections: &Vec<Section>,
    config: &Config,
    with_date: bool,
    list: bool,
) -> (out: String)
    ensures
        out@ == all_sections_text(strings::views(sections@), config@, with_date, list),
{
    broadcast use strings::group_lists;

    let ghost all = strings::views(sections@);
    let mut out = String::new();
    for i in 0..sections.len()
        invariant
            all == strings::views(sections@),
            out@ == all_sections_text(all.take(i as int), config@, with_date, list),
    {
        broadcast use strings::group_lists;

        assert(all.take(i as int).push(all[i as int]) == all.take(i + 1));
        assert(all[i as int] == sections@[i as int]@);
        out.append(section_block(&sections[i], config, with_date, list).as_str());
    }
    assert(all.take(all.len() as int) =~= all);
    out
}

fn body(digest: &Digest, config: &Config, sections: &Vec<Section>) -> (out: String)
    ensures
        out@ == body_text(digest@, config@, strings::views(sections@)),
{
    assert(digest@.repos.len() == digest.repos@.len());
    if digest.repos.len() == 0 {
        return wrapped("  ", "  ", "No repositories were found in this session.");
    }
    let across = render::quantity(digest.repos.len(), "repository", "repositories");
    if !render::busy_anywhere(sections) {
        return wrapped(
            "  ",
            "  ",
            strings::cat3("Nothing landed in this window, across ", across.as_str(), ".").as_str(),
        );
    }
    let stats = render::repo_stats(digest.total_commits(), digest.total_churn());
    let mut out = line(
        strings::cat4("  ", stats.as_str(), "  across ", across.as_str()).as_str(),
    );
    let with_date = render::dates_needed(digest);
    let list = render::lists_commits(&digest.window);
    out.append(section_blocks(sections, config, with_date, list).as_str());
    out
}

fn note_lines(notes: &Vec<Note>) -> (out: String)
    ensures
        out@ == notes_text(strings::views(notes@)),
{
    broadcast use strings::group_lists;

    let ghost all = strings::views(notes@);
    if notes.len() == 0 {
        return String::new();
    }
    let mut out = strings::cat2(blank().as_str(), line("  notes").as_str());
    let ghost start = out@;
    assert(start + Seq::<char>::empty() =~= start);
    for i in 0..notes.len()
        invariant
            all == strings::views(notes@),
            out@ == start + note_list_text(all.take(i as int)),
    {
        broadcast use strings::group_lists;

        let ghost before = note_list_text(all.take(i as int));
        assert(all.take(i as int).push(all[i as int]) == all.take(i + 1));
        assert(all[i as int] == notes@[i as int]@);
        let shown = match notes[i].severity {
            Severity::Warning => wrapped("    ! ", "      ", notes[i].message.as_str()),
            Severity::Info => wrapped("    - ", "      ", notes[i].message.as_str()),
        };
        out.append(shown.as_str());
        assert(start + before + shown@ =~= start + (before + shown@));
    }
    assert(all.take(all.len() as int) =~= all);
    out
}

/// The digest for a terminal. Legible at 80 columns.
pub fn text(digest: &Digest, config: &Config) -> (out: String)
    ensures
        out@ == report_text(digest@, config@),
{
    let grouping = render::grouping(digest, config);
    let sections = render::sections(digest, grouping.as_ref());
    let mut out = header(digest);
    out.append(caveat_lines(&grouping).as_str());
    out.append(blank().as_str());
    out.append(body(digest, config, &sections).as_str());
    let closing = if render::without_headings(&sections) || !render::busy_anywhere(&sections) {
        quiet_lines(&render::sorted_repos(digest))
    } else {
        String::new()
    };
    out.append(closing.as_str());
    out.append(note_lines(&digest.notes).as_str());
    out
}

// ---------------------------------------------------------------------------
// The comparison
// ---------------------------------------------------------------------------

pub open spec fn movement_text(pair: (Text, model::Movement), home: Option<Text>) -> Text {
    wrapped_text(
        if pair.1.calls_for_action() {
            "    ! "@
        } else {
            "    "@
        },
        "      "@,
        render::short_path(render::from_home(pair.0, home), 60) + " \u{2014} "@ + pair.1.words(),
    )
}

pub open spec fn movements_text(pairs: Seq<(Text, model::Movement)>, home: Option<Text>) -> Text
    decreases pairs.len(),
{
    if pairs.len() == 0 {
        Seq::empty()
    } else {
        movements_text(pairs.drop_last(), home) + movement_text(pairs.last(), home)
    }
}

pub open spec fn moves_text(repos: Seq<model::RepoComparisonView>, home: Option<Text>) -> Text
    decreases repos.len(),
{
    if repos.len() == 0 {
        Seq::empty()
    } else {
        let before = moves_text(repos.drop_last(), home);
        let here = markdown::moved(repos.last().checkouts);
        if here.len() == 0 {
            before
        } else {
            before + (seq!['\n'] + line_text("  "@ + repos.last().name) + movements_text(here, home))
        }
    }
}

/// A comparison for a terminal.
pub open spec fn comparison_text(comparison: model::ComparisonView, home: Option<Text>) -> Text {
    let start = wrapped_text(
        ""@,
        "  "@,
        "standup \u{2014} what changed between "@ + comparison.before.full() + " and "@
            + comparison.after.full(),
    ) + seq!['\n'];
    let across = render::counted(comparison.repos.len(), "repository"@, "repositories"@);
    if comparison.repos.len() == 0 {
        start + wrapped_text(
            "  "@,
            "  "@,
            "Neither digest found a repository, so there is nothing to compare."@,
        )
    } else if comparison.quiet() {
        start + wrapped_text("  "@, "  "@, "Nothing moved, across "@ + across + "."@)
    } else {
        let names = markdown::unmoved(comparison.repos);
        let new = render::counted(
            crate::compare::new_total(comparison.repos) as nat,
            "new commit"@,
            "new commits"@,
        );
        let told = start + line_text("  "@ + new + " across "@ + across) + moves_text(
            comparison.repos,
            home,
        );
        if names.len() == 0 {
            told
        } else {
            told + seq!['\n'] + wrapped_text(
                "  unchanged: "@,
                "             "@,
                strings::joined(names, ", "@),
            )
        }
    }
}

fn movement_lines(pairs: &Vec<&(String, model::Movement)>, home: &Option<String>) -> (out: String)
    ensures
        out@ == movements_text(strings::views(pairs@), strings::view_of(*home)),
{
    broadcast use strings::group_lists;

    let ghost all = strings::views(pairs@);
    let mut out = String::new();
    for i in 0..pairs.len()
        invariant
            all == strings::views(pairs@),
            out@ == movements_text(all.take(i as int), strings::view_of(*home)),
    {
        broadcast use strings::group_lists;

        assert(all.take(i as int).push(all[i as int]) == all.take(i + 1));
        let (path, movement) = pairs[i];
        assert(all[i as int] == (path@, *movement));
        let shown = render::shorten_path(path.as_str(), 60, home);
        let told = strings::cat3(shown.as_str(), " \u{2014} ", movement.sentence().as_str());
        let lines = if movement.loud() {
            wrapped("    ! ", "      ", told.as_str())
        } else {
            wrapped("    ", "      ", told.as_str())
        };
        out.append(lines.as_str());
    }
    assert(all.take(all.len() as int) =~= all);
    out
}

fn move_blocks(repos: &Vec<model::RepoComparison>, home: &Option<String>) -> (out: String)
    ensures
        out@ == moves_text(strings::views(repos@), strings::view_of(*home)),
{
    broadcast use strings::group_lists;

    let ghost all = strings::views(repos@);
    let mut out = String::new();
    for i in 0..repos.len()
        invariant
            all == strings::views(repos@),
            out@ == moves_text(all.take(i as int), strings::view_of(*home)),
    {
        broadcast use strings::group_lists;

        assert(all.take(i as int).push(all[i as int]) == all.take(i + 1));
        assert(all[i as int] == repos@[i as int]@);
        let here = markdown::moved_of(&repos[i]);
        assert(strings::views(here@).len() == here@.len());
        if here.len() > 0 {
            let block = strings::cat3(
                blank().as_str(),
                line(strings::cat2("  ", repos[i].name.as_str()).as_str()).as_str(),
                movement_lines(&here, home).as_str(),
            );
            out.append(block.as_str());
        }
    }
    assert(all.take(all.len() as int) =~= all);
    out
}

/// A comparison for a terminal.
pub fn comparison(found: &model::Comparison, home: &Option<String>) -> (out: String)
    ensures
        out@ == comparison_text(found@, strings::view_of(*home)),
{
    let between = strings::cat4(
        "standup \u{2014} what changed between ",
        found.before.full().as_str(),
        " and ",
        found.after.full().as_str(),
    );
    let start = strings::cat2(wrapped("", "  ", between.as_str()).as_str(), blank().as_str());
    assert(found@.repos.len() == found.repos@.len());
    if found.repos.len() == 0 {
        let told = wrapped(
            "  ",
            "  ",
            "Neither digest found a repository, so there is nothing to compare.",
        );
        return strings::cat2(start.as_str(), told.as_str());
    }
    let across = render::quantity(found.repos.len(), "repository", "repositories");
    if found.is_quiet() {
        let told = strings::cat3("Nothing moved, across ", across.as_str(), ".");
        return strings::cat2(start.as_str(), wrapped("  ", "  ", told.as_str()).as_str());
    }
    let new = render::quantity(found.total_commits(), "new commit", "new commits");
    let told = strings::cat3(
        start.as_str(),
        line(strings::cat4("  ", new.as_str(), " across ", across.as_str()).as_str()).as_str(),
        move_blocks(&found.repos, home).as_str(),
    );
    let names = markdown::unmoved_of(&found.repos);
    assert(strings::views(names@).len() == names@.len());
    if names.len() == 0 {
        return told;
    }
    strings::cat3(
        told.as_str(),
        blank().as_str(),
        wrapped("  unchanged: ", "             ", strings::join(&names, ", ").as_str()).as_str(),
    )
}

// ---------------------------------------------------------------------------
// Laws
// ---------------------------------------------------------------------------

/// Whether every stretch of the text without a line break in it fits the width,
/// and the text ends with a line break unless it is empty.
pub open spec fn laid_out(s: Text) -> bool {
    &&& s.len() == 0 || s.last() == '\n'
    &&& forall|i: int, j: int|
        0 <= i <= j <= s.len() && !(#[trigger] s.subrange(i, j)).contains('\n')
            ==> render::columns(s.subrange(i, j)) <= WIDTH
}

proof fn lemma_laid_out_nothing()
    ensures
        laid_out(Seq::empty()),
{
    let s = Seq::<char>::empty();
    assert forall|i: int, j: int|
        0 <= i <= j <= s.len() && !(#[trigger] s.subrange(i, j)).contains(
            '\n',
        ) implies render::columns(s.subrange(i, j)) <= WIDTH by {
        assert(s.subrange(i, j) =~= s);
    }
}

proof fn lemma_laid_out_add(a: Text, b: Text)
    requires
        laid_out(a),
        laid_out(b),
    ensures
        laid_out(a + b),
{
    let s = a + b;
    assert forall|i: int, j: int|
        0 <= i <= j <= s.len() && !(#[trigger] s.subrange(i, j)).contains(
            '\n',
        ) implies render::columns(s.subrange(i, j)) <= WIDTH by {
        let part = s.subrange(i, j);
        if j <= a.len() {
            assert(part =~= a.subrange(i, j));
        } else if i >= a.len() {
            assert(part =~= b.subrange(i - a.len(), j - a.len()));
        } else {
            assert(part[a.len() - 1 - i] == a.last());
            assert(part.contains('\n'));
        }
    }
    if b.len() > 0 {
        assert(s.last() == b.last());
    } else {
        assert(s =~= a);
    }
}

proof fn lemma_laid_out_break()
    ensures
        laid_out(seq!['\n']),
{
    let s = seq!['\n'];
    assert forall|i: int, j: int|
        0 <= i <= j <= s.len() && !(#[trigger] s.subrange(i, j)).contains(
            '\n',
        ) implies render::columns(s.subrange(i, j)) <= WIDTH by {
        if i < j {
            assert(s.subrange(i, j)[0] == '\n');
        }
    }
}

proof fn lemma_laid_out_line(s: Text)
    ensures
        laid_out(line_text(s)),
{
    let body = render::cut_right(strings::trimmed_end(s), WIDTH as nat);
    render::law_truncation_keeps_the_width(strings::trimmed_end(s), WIDTH as nat);
    let whole = line_text(s);
    assert forall|i: int, j: int|
        0 <= i <= j <= whole.len() && !(#[trigger] whole.subrange(i, j)).contains(
            '\n',
        ) implies render::columns(whole.subrange(i, j)) <= WIDTH by {
        let part = whole.subrange(i, j);
        if j <= body.len() {
            assert(part =~= body.subrange(i, j));
            render::lemma_columns_part(body, i, j);
        } else if i < j {
            assert(part[body.len() - i] == '\n');
        }
    }
}

proof fn lemma_laid_out_words(words: Seq<Text>, first: Text, rest: Text)
    ensures
        laid_out(with_words(words, first, rest).done),
    decreases words.len(),
{
    if words.len() == 0 {
        lemma_laid_out_nothing();
    } else {
        lemma_laid_out_words(words.drop_last(), first, rest);
        let prose = with_words(words.drop_last(), first, rest);
        let full = indent(prose.continued, first, rest) + prose.current;
        lemma_laid_out_line(full);
        lemma_laid_out_add(prose.done, line_text(full));
    }
}

proof fn lemma_laid_out_wrapped(first: Text, rest: Text, s: Text)
    ensures
        laid_out(wrapped_text(first, rest, s)),
{
    lemma_laid_out_words(strings::words(s), first, rest);
    let prose = with_words(strings::words(s), first, rest);
    let full = indent(prose.continued, first, rest) + prose.current;
    lemma_laid_out_line(full);
    lemma_laid_out_add(prose.done, line_text(full));
}

proof fn lemma_laid_out_header(digest: model::DigestView)
    ensures
        laid_out(header_text(digest)),
{
    let window = digest.window;
    let start = "standup \u{2014} since "@ + window.since.full();
    let opening = match window.until {
        Some(until) => line_text(start + " until "@ + until.full()) + line_text(
            "  generated "@ + digest.generated_at.full(),
        ),
        None => line_text(start + " (generated "@ + render::generated_text(digest) + ")"@),
    };
    match window.until {
        Some(until) => {
            let first = start + " until "@ + until.full();
            let second = "  generated "@ + digest.generated_at.full();
            lemma_laid_out_line(first);
            lemma_laid_out_line(second);
            lemma_laid_out_add(line_text(first), line_text(second));
        },
        None => {
            lemma_laid_out_line(start + " (generated "@ + render::generated_text(digest) + ")"@);
        },
    }
    assert(laid_out(opening));
    if let Some(note) = render::window_text(window) {
        lemma_laid_out_wrapped("  "@, "  "@, note);
        lemma_laid_out_add(opening, wrapped_text("  "@, "  "@, note));
    }
}

proof fn lemma_laid_out_problems(problems: Seq<Text>)
    ensures
        laid_out(problems_text(problems)),
    decreases problems.len(),
{
    if problems.len() == 0 {
        lemma_laid_out_nothing();
    } else {
        lemma_laid_out_problems(problems.drop_last());
        lemma_laid_out_wrapped("      ! "@, "        "@, problems.last());
        lemma_laid_out_add(
            problems_text(problems.drop_last()),
            marked_text(true, problems.last()),
        );
    }
}

proof fn lemma_laid_out_commits(commits: Seq<model::CommitView>, with_date: bool)
    ensures
        laid_out(commits_text(commits, with_date)),
    decreases commits.len(),
{
    if commits.len() == 0 {
        lemma_laid_out_nothing();
    } else {
        lemma_laid_out_commits(commits.drop_last(), with_date);
        let commit = commits.last();
        let width: nat = if with_date {
            16
        } else {
            5
        };
        let budget: nat = if with_date {
            44
        } else {
            55
        };
        lemma_laid_out_line(
            "        "@ + padded_left(render::instant_text(commit.committed, with_date), width)
                + "  "@ + padded_right(
                strings::leading(commit.oid, OID_COLUMNS as nat),
                OID_COLUMNS as nat,
            ) + "  "@ + render::cut_right(strings::trimmed(commit.subject), budget),
        );
        lemma_laid_out_add(
            commits_text(commits.drop_last(), with_date),
            commit_text(commit, with_date),
        );
    }
}

proof fn lemma_laid_out_commit_list(commits: Seq<model::CommitView>, max: nat, with_date: bool)
    ensures
        laid_out(commit_list_text(commits, max, with_date)),
{
    let shown = render::shown_commits(commits, max);
    let held = render::held_back(commits, max);
    lemma_laid_out_commits(shown, with_date);
    let count = if shown.len() == 0 {
        render::counted(held, "commit"@, "commits"@)
    } else {
        render::counted(held, "more commit"@, "more commits"@)
    };
    lemma_laid_out_line("        \u{2026} "@ + count + " not listed"@);
    lemma_laid_out_nothing();
    lemma_laid_out_add(commits_text(shown, with_date), remainder_text(shown.len(), held));
}

proof fn lemma_laid_out_checkout(
    checkout: model::CheckoutView,
    width: nat,
    config: config::ConfigView,
    with_date: bool,
    list: bool,
)
    ensures
        laid_out(checkout_text(checkout, width, config, with_date, list)),
{
    reveal(checkout_text);
    let report = checkout.report;
    lemma_laid_out_nothing();
    let branch = render::cut_right(render::head_text(report.head), width);
    let budget: nat = if 6 + width + 12 <= WIDTH {
        (WIDTH - 6 - width) as nat
    } else {
        12
    };
    lemma_laid_out_line(
        "    "@ + branch + strings::repeated(
            ' ',
            (width - render::columns(branch) + 2) as nat,
        ) + render::short_path(render::from_home(report.path, config.home), budget),
    );
    let a = place_text(report, width, config.home);
    assert(laid_out(a));
    let remark = render::head_remark(report.head, render::REF_COLUMNS as nat);
    let b = remark_text(remark);
    if let Some(remark) = remark {
        lemma_laid_out_wrapped(
            if remark.1 {
                "      ! "@
            } else {
                "      "@
            },
            "        "@,
            remark.0,
        );
    }
    let c = problems_text(report.problems);
    lemma_laid_out_problems(report.problems);
    let credited = render::credited(checkout);
    let d = credit_text(credited);
    if let Some(credited) = credited {
        lemma_laid_out_wrapped("      "@, "        "@, credited.0 + ": "@ + credited.1);
    }
    let e = deed_text(report);
    lemma_laid_out_line("      "@ + "quiet"@);
    lemma_laid_out_wrapped(
        "      "@,
        "        "@,
        strings::joined(render::clauses(report, render::REF_COLUMNS as nat), ", "@),
    );
    let f = sentence_text(render::unpushed_text(report.unpushed));
    if let Some(sentence) = render::unpushed_text(report.unpushed) {
        lemma_laid_out_wrapped("      "@, "        "@, sentence);
    }
    let g = sentence_text(render::dirty_text(report.dirty));
    if let Some(sentence) = render::dirty_text(report.dirty) {
        lemma_laid_out_wrapped("      "@, "        "@, sentence);
    }
    lemma_laid_out_commit_list(report.commits, config.max_commits as nat, with_date);
    let h = if list {
        commit_list_text(report.commits, config.max_commits as nat, with_date)
    } else {
        Seq::empty()
    };
    lemma_laid_out_add(a, b);
    lemma_laid_out_add(a + b, c);
    lemma_laid_out_add(a + b + c, d);
    lemma_laid_out_add(a + b + c + d, e);
    lemma_laid_out_add(a + b + c + d + e, f);
    lemma_laid_out_add(a + b + c + d + e + f, g);
    lemma_laid_out_add(a + b + c + d + e + f + g, h);
}

proof fn lemma_laid_out_checkouts(
    checkouts: Seq<model::CheckoutView>,
    width: nat,
    config: config::ConfigView,
    with_date: bool,
    list: bool,
)
    ensures
        laid_out(checkouts_text(checkouts, width, config, with_date, list)),
    decreases checkouts.len(),
{
    if checkouts.len() == 0 {
        lemma_laid_out_nothing();
    } else {
        lemma_laid_out_checkouts(checkouts.drop_last(), width, config, with_date, list);
        lemma_laid_out_checkout(checkouts.last(), width, config, with_date, list);
        lemma_laid_out_add(
            checkouts_text(checkouts.drop_last(), width, config, with_date, list),
            checkout_text(checkouts.last(), width, config, with_date, list),
        );
    }
}

proof fn lemma_laid_out_repos(
    repos: Seq<model::RepoView>,
    config: config::ConfigView,
    with_date: bool,
    list: bool,
)
    ensures
        laid_out(repos_text(repos, config, with_date, list)),
    decreases repos.len(),
{
    if repos.len() == 0 {
        lemma_laid_out_nothing();
    } else {
        let before = repos_text(repos.drop_last(), config, with_date, list);
        lemma_laid_out_repos(repos.drop_last(), config, with_date, list);
        lemma_laid_out_break();
        lemma_laid_out_add(before, seq!['\n']);
        let repo = repos.last();
        let stats = render::block_text(repo.commits, repo.churn);
        let name = render::cut_right(repo.name, name_room(stats));
        let head = "  "@ + name + strings::repeated(' ', name_gap(name, stats)) + stats;
        lemma_laid_out_line(head);
        let rest = checkouts_text(
            render::checkouts_sorted(repo.checkouts),
            render::branch_width(repo.checkouts),
            config,
            with_date,
            list,
        );
        lemma_laid_out_checkouts(
            render::checkouts_sorted(repo.checkouts),
            render::branch_width(repo.checkouts),
            config,
            with_date,
            list,
        );
        lemma_laid_out_add(line_text(head), rest);
        lemma_laid_out_add(before + seq!['\n'], repo_text(repo, config, with_date, list));
    }
}

proof fn lemma_laid_out_quiet(repos: Seq<model::RepoView>)
    ensures
        laid_out(quiet_text(repos)),
{
    lemma_laid_out_nothing();
    lemma_laid_out_break();
    let names = strings::joined(names_of(model::quiet_among(repos)), ", "@);
    lemma_laid_out_wrapped("  quiet: "@, "         "@, names);
    lemma_laid_out_add(seq!['\n'], wrapped_text("  quiet: "@, "         "@, names));
}

proof fn lemma_laid_out_sections(
    sections: Seq<render::SectionView>,
    config: config::ConfigView,
    with_date: bool,
    list: bool,
)
    ensures
        laid_out(all_sections_text(sections, config, with_date, list)),
    decreases sections.len(),
{
    lemma_laid_out_nothing();
    if sections.len() > 0 {
        lemma_laid_out_sections(sections.drop_last(), config, with_date, list);
        reveal(section_text);
        let section = sections.last();
        let a = heading_text(section);
        if let Some(heading) = section.heading {
            let told = heading + match section.stats {
                Some(stats) => " \u{2014} "@ + stats,
                None => ""@,
            };
            lemma_laid_out_break();
            lemma_laid_out_wrapped("  "@, "    "@, told);
            lemma_laid_out_add(seq!['\n'], wrapped_text("  "@, "    "@, told));
        }
        let b = repos_text(model::busy_among(section.repos), config, with_date, list);
        lemma_laid_out_repos(model::busy_among(section.repos), config, with_date, list);
        lemma_laid_out_quiet(section.repos);
        let c = if section.heading is Some {
            quiet_text(section.repos)
        } else {
            Seq::empty()
        };
        lemma_laid_out_add(a, b);
        lemma_laid_out_add(a + b, c);
        lemma_laid_out_add(
            all_sections_text(sections.drop_last(), config, with_date, list),
            section_text(section, config, with_date, list),
        );
    }
}

proof fn lemma_laid_out_body(
    digest: model::DigestView,
    config: config::ConfigView,
    sections: Seq<render::SectionView>,
)
    ensures
        laid_out(body_text(digest, config, sections)),
{
    let across = render::counted(digest.repos.len(), "repository"@, "repositories"@);
    lemma_laid_out_wrapped("  "@, "  "@, "No repositories were found in this session."@);
    lemma_laid_out_wrapped("  "@, "  "@, "Nothing landed in this window, across "@ + across + "."@);
    let first = "  "@ + render::block_text(
        model::commit_total(digest.repos),
        model::churn_total(digest.repos),
    ) + "  across "@ + across;
    lemma_laid_out_line(first);
    let list = !(digest.window.source is Rollup);
    lemma_laid_out_sections(sections, config, render::needs_dates(digest), list);
    lemma_laid_out_add(
        line_text(first),
        all_sections_text(sections, config, render::needs_dates(digest), list),
    );
}

proof fn lemma_laid_out_notes(notes: Seq<Note<Text>>)
    ensures
        laid_out(note_list_text(notes)),
    decreases notes.len(),
{
    if notes.len() == 0 {
        lemma_laid_out_nothing();
    } else {
        lemma_laid_out_notes(notes.drop_last());
        lemma_laid_out_wrapped("    ! "@, "      "@, notes.last().message);
        lemma_laid_out_wrapped("    - "@, "      "@, notes.last().message);
        lemma_laid_out_add(note_list_text(notes.drop_last()), note_text(notes.last()));
    }
}

/// No line of the terminal report is wider than the budget, whatever the
/// repositories, branches, paths and messages in the digest are called.
pub proof fn law_no_line_exceeds_the_width(digest: model::DigestView, config: config::ConfigView)
    ensures
        laid_out(report_text(digest, config)),
{
    lemma_laid_out_nothing();
    lemma_laid_out_break();
    let grouping = render::grouping_asked(digest, config);
    let sections = render::sections_of(digest, grouping);
    let header = header_text(digest);
    lemma_laid_out_header(digest);
    if let Some(grouping) = grouping {
        lemma_laid_out_wrapped("  "@, "  "@, grouping.warning());
    }
    lemma_laid_out_add(header, caveat_text(grouping));
    let a = header + caveat_text(grouping);
    lemma_laid_out_add(a, seq!['\n']);
    let b = body_text(digest, config, sections);
    lemma_laid_out_body(digest, config, sections);
    lemma_laid_out_add(a + seq!['\n'], b);
    let c = closing_text(digest, sections);
    lemma_laid_out_quiet(render::repos_sorted(digest.repos));
    lemma_laid_out_add(a + seq!['\n'] + b, c);
    let d = notes_text(digest.notes);
    lemma_laid_out_line("  notes"@);
    lemma_laid_out_notes(digest.notes);
    lemma_laid_out_add(seq!['\n'], line_text("  notes"@));
    lemma_laid_out_add(seq!['\n'] + line_text("  notes"@), note_list_text(digest.notes));
    lemma_laid_out_add(a + seq!['\n'] + b + c, d);
}

} // verus!
