//! What every rendering of a digest shows.

use vstd::prelude::*;

use crate::by_agent;
use crate::config;
use crate::config::Format;
use crate::model;
use crate::model::{Activity, AgentRef, Note, Stamp, Text};
use crate::order;
use crate::render;
use crate::render::html;
use crate::render::markdown;
use crate::render::slack;
use crate::render::text;
use crate::strings;

verus! {

// ---------------------------------------------------------------------------
// What is to be seen
// ---------------------------------------------------------------------------

/// How a note is to be found in a format: laid out on lines of its own in the
/// terminal report, escaped in the others.
pub open spec fn note_form(format: Format, note: Note<Text>) -> Text {
    match format {
        Format::Text => text::note_text(note),
        Format::Markdown => markdown::escaped(note.message),
        Format::Slack => slack::escaped(note.message),
        Format::Html | Format::Json => html::escaped(note.message),
    }
}

/// How a problem of a checkout is to be found in a format.
pub open spec fn problem_form(format: Format, problem: Text) -> Text {
    match format {
        Format::Text => text::marked_text(true, problem),
        Format::Markdown => markdown::escaped(problem),
        Format::Slack => slack::escaped(problem),
        Format::Html | Format::Json => html::escaped(problem),
    }
}

pub proof fn lemma_markdown_ends_plainly(s: Text)
    ensures
        markdown::escaped(s).len() > 0 ==> markdown::escaped(s).last() != '\n',
        markdown::guarded(s).len() > 0 ==> markdown::guarded(s).last() != '\n',
    decreases s.len(),
{
    reveal(markdown::escaped);
    if s.len() > 0 {
        lemma_markdown_ends_plainly(s.drop_last());
        assert(markdown::guarded(s).last() == markdown::plain(s.last()));
    }
}

// ---------------------------------------------------------------------------
// Notes
// ---------------------------------------------------------------------------

proof fn lemma_text_notes(notes: Seq<Note<Text>>, i: int)
    requires
        0 <= i < notes.len(),
    ensures
        strings::holds(text::note_list_text(notes), text::note_text(notes[i])),
    decreases notes.len(),
{
    broadcast use strings::lemma_holds_together;

    if i < notes.len() - 1 {
        assert(notes.drop_last()[i] == notes[i]);
        lemma_text_notes(notes.drop_last(), i);
    } else {
        strings::lemma_holds_itself(text::note_text(notes[i]));
    }
}

proof fn lemma_markdown_notes(notes: Seq<Note<Text>>, i: int)
    requires
        0 <= i < notes.len(),
    ensures
        strings::holds(markdown::note_list_text(notes), markdown::escaped(notes[i].message)),
    decreases notes.len(),
{
    broadcast use strings::lemma_holds_together;

    if i < notes.len() - 1 {
        assert(notes.drop_last()[i] == notes[i]);
        lemma_markdown_notes(notes.drop_last(), i);
    } else {
        strings::lemma_holds_itself(markdown::escaped(notes[i].message));
    }
}

proof fn lemma_slack_notes(notes: Seq<Note<Text>>, i: int)
    requires
        0 <= i < notes.len(),
    ensures
        strings::holds(slack::note_list_text(notes), slack::escaped(notes[i].message)),
    decreases notes.len(),
{
    broadcast use strings::lemma_holds_together;

    if i < notes.len() - 1 {
        assert(notes.drop_last()[i] == notes[i]);
        lemma_slack_notes(notes.drop_last(), i);
    } else {
        strings::lemma_holds_itself(slack::escaped(notes[i].message));
    }
}

proof fn lemma_html_notes(notes: Seq<Note<Text>>, i: int)
    requires
        0 <= i < notes.len(),
    ensures
        strings::holds(html::notes_text(notes), html::escaped(notes[i].message)),
    decreases notes.len(),
{
    broadcast use strings::lemma_holds_together;

    if i < notes.len() - 1 {
        assert(notes.drop_last()[i] == notes[i]);
        lemma_html_notes(notes.drop_last(), i);
    } else {
        strings::lemma_holds_itself(html::escaped(notes[i].message));
    }
}

/// Every note of a digest is shown, in every format that people read.
pub proof fn law_every_note_is_shown(
    digest: model::DigestView,
    config: config::ConfigView,
    i: int,
)
    requires
        0 <= i < digest.notes.len(),
        config.format != Format::Json,
    ensures
        render::rendered(digest, config) is Some,
        strings::holds(
            render::rendered(digest, config)->0,
            note_form(config.format, digest.notes[i]),
        ),
{
    broadcast use strings::lemma_holds_together;

    let notes = digest.notes;
    match config.format {
        Format::Text => {
            lemma_text_notes(notes, i);
        },
        Format::Markdown => {
            lemma_markdown_notes(notes, i);
            let wanted = markdown::escaped(notes[i].message);
            let draft = markdown::draft_text(
                digest,
                config,
                render::grouping_asked(digest, config),
            );
            assert(strings::holds(draft, wanted));
            lemma_markdown_ends_plainly(notes[i].message);
            strings::lemma_holds_without_trailing(draft, '\n', wanted);
            assert(markdown::digest_text(digest, config, render::grouping_asked(digest, config))
                =~= strings::without_trailing(draft, '\n') + seq!['\n']);
        },
        Format::Slack => {
            lemma_slack_notes(notes, i);
        },
        Format::Html | Format::Json => {
            lemma_html_notes(notes, i);
        },
    }
}

// ---------------------------------------------------------------------------
// The window
// ---------------------------------------------------------------------------

/// How an instant is to be found in a format: as it is in the terminal report,
/// escaped in the others.
pub open spec fn instant_form(format: Format, stamp: Stamp<Text>) -> Text {
    match format {
        Format::Text => stamp.full(),
        Format::Markdown => markdown::escaped(stamp.full()),
        Format::Slack => slack::escaped(stamp.full()),
        Format::Html | Format::Json => html::escaped(stamp.full()),
    }
}

/// The first line of the terminal report, before it is cut to the width.
pub open spec fn heading_line(digest: model::DigestView) -> Text {
    let start = "standup \u{2014} since "@ + digest.window.since.full();
    match digest.window.until {
        Some(until) => start + " until "@ + until.full(),
        None => start + " (generated "@ + render::generated_text(digest) + ")"@,
    }
}

/// Whether the first line of the terminal report goes out as it is: it fits the
/// width and does not end in white space.
pub open spec fn heading_fits(digest: model::DigestView) -> bool {
    let heading = heading_line(digest);
    &&& strings::trimmed_end(heading) == heading
    &&& render::columns(heading) <= render::WIDTH
}

/// Every digest states where its window starts, in local time with the zone
/// spelled out, and where it ends if it ends before now. In the terminal report
/// that takes a first line that fits the width.
pub proof fn law_every_digest_states_its_window(
    digest: model::DigestView,
    config: config::ConfigView,
)
    requires
        config.format != Format::Json,
        config.format == Format::Text ==> heading_fits(digest),
    ensures
        render::rendered(digest, config) is Some,
        strings::holds(
            render::rendered(digest, config)->0,
            instant_form(config.format, digest.window.since),
        ),
        digest.window.until is Some ==> strings::holds(
            render::rendered(digest, config)->0,
            instant_form(config.format, digest.window.until->0),
        ),
{
    broadcast use strings::lemma_holds_together;

    let window = digest.window;
    let since = instant_form(config.format, window.since);
    let until = instant_form(config.format, window.until->0);
    strings::lemma_holds_itself(since);
    strings::lemma_holds_itself(until);
    match config.format {
        Format::Text => {
            let heading = heading_line(digest);
            render::law_truncation_leaves_what_fits(heading, render::WIDTH as nat);
            assert(text::line_text(heading) =~= heading + seq!['\n']);
            assert(strings::holds(heading, since));
            assert(window.until is Some ==> strings::holds(heading, until));
            assert(strings::holds(text::line_text(heading), since));
            assert(window.until is Some ==> strings::holds(text::line_text(heading), until));
            assert(strings::holds(text::header_text(digest), since));
            assert(window.until is Some ==> strings::holds(text::header_text(digest), until));
        },
        Format::Markdown => {
            let grouping = render::grouping_asked(digest, config);
            let draft = markdown::draft_text(digest, config, grouping);
            assert(strings::holds(markdown::header_text(digest), since));
            assert(window.until is Some ==> strings::holds(markdown::header_text(digest), until));
            assert(strings::holds(draft, since));
            assert(window.until is Some ==> strings::holds(draft, until));
            lemma_markdown_ends_plainly(window.since.full());
            strings::lemma_holds_without_trailing(draft, '\n', since);
            if window.until is Some {
                lemma_markdown_ends_plainly((window.until->0).full());
                strings::lemma_holds_without_trailing(draft, '\n', until);
            }
            assert(markdown::digest_text(digest, config, grouping) =~= strings::without_trailing(
                draft,
                '\n',
            ) + seq!['\n']);
        },
        Format::Slack => {
            let grouping = render::grouping_asked(digest, config);
            assert(strings::holds(slack::header_text(digest, grouping), since));
            assert(window.until is Some ==> strings::holds(
                slack::header_text(digest, grouping),
                until,
            ));
        },
        Format::Html | Format::Json => {
            assert(strings::holds(html::header_text(digest), since));
            assert(window.until is Some ==> strings::holds(html::header_text(digest), until));
        },
    }
}

// ---------------------------------------------------------------------------
// Grouping
// ---------------------------------------------------------------------------

/// How the caveat of a grouping is to be found in a format: laid out on lines of
/// its own in the terminal report, escaped in the others.
pub open spec fn caveat_form(format: Format, caveat: Text) -> Text {
    match format {
        Format::Text => text::wrapped_text("  "@, "  "@, caveat),
        Format::Markdown => markdown::escaped(caveat),
        Format::Slack => slack::escaped(caveat),
        Format::Html | Format::Json => html::escaped(caveat),
    }
}

/// A digest that is grouped by agent says what that does to its numbers, in
/// every format that people read.
pub proof fn law_a_grouped_digest_states_its_caveat(
    digest: model::DigestView,
    config: config::ConfigView,
)
    requires
        config.by_agent,
        config.format != Format::Json,
    ensures
        render::grouping_asked(digest, config) is Some,
        render::rendered(digest, config) is Some,
        strings::holds(
            render::rendered(digest, config)->0,
            caveat_form(
                config.format,
                (render::grouping_asked(digest, config)->0).warning(),
            ),
        ),
{
    broadcast use strings::lemma_holds_together;

    let grouping = render::grouping_asked(digest, config);
    let caveat = (grouping->0).warning();
    let wanted = caveat_form(config.format, caveat);
    strings::lemma_holds_itself(wanted);
    if config.format == Format::Markdown {
        let draft = markdown::draft_text(digest, config, grouping);
        assert(strings::holds(markdown::caveat_text(grouping), wanted));
        assert(strings::holds(draft, wanted));
        lemma_markdown_ends_plainly(caveat);
        strings::lemma_holds_without_trailing(draft, '\n', wanted);
        assert(markdown::digest_text(digest, config, grouping) =~= strings::without_trailing(
            draft,
            '\n',
        ) + seq!['\n']);
    } else if config.format == Format::Slack {
        assert(strings::holds(slack::header_text(digest, grouping), wanted));
    } else if config.format == Format::Text {
        assert(strings::holds(text::caveat_text(grouping), wanted));
    } else {
        assert(strings::holds(html::caveat_text(grouping), wanted));
    }
}

// ---------------------------------------------------------------------------
// Problems
// ---------------------------------------------------------------------------

proof fn lemma_text_problems(problems: Seq<Text>, i: int)
    requires
        0 <= i < problems.len(),
    ensures
        strings::holds(text::problems_text(problems), text::marked_text(true, problems[i])),
    decreases problems.len(),
{
    broadcast use strings::lemma_holds_together;

    if i < problems.len() - 1 {
        assert(problems.drop_last()[i] == problems[i]);
        lemma_text_problems(problems.drop_last(), i);
    } else {
        strings::lemma_holds_itself(text::marked_text(true, problems[i]));
    }
}

proof fn lemma_text_checkouts(
    checkouts: Seq<model::CheckoutView>,
    width: nat,
    config: config::ConfigView,
    with_date: bool,
    list: bool,
    checkout: model::CheckoutView,
    part: Text,
)
    requires
        checkouts.contains(checkout),
        strings::holds(
            text::checkout_text(
                checkout,
                width,
                config,
                with_date,
                list,
            ),
            part,
        ),
    ensures
        strings::holds(
            text::checkouts_text(checkouts, width, config, with_date, list),
            part,
        ),
    decreases checkouts.len(),
{
    broadcast use strings::lemma_holds_together;

    if checkouts.last() != checkout {
        let at = choose|at: int| 0 <= at < checkouts.len() && checkouts[at] == checkout;
        assert(checkouts.drop_last()[at] == checkout);
        lemma_text_checkouts(checkouts.drop_last(), width, config, with_date, list, checkout, part);
    }
}

proof fn lemma_text_repos(
    repos: Seq<model::RepoView>,
    config: config::ConfigView,
    with_date: bool,
    list: bool,
    repo: model::RepoView,
    checkout: model::CheckoutView,
    part: Text,
)
    requires
        repos.contains(repo),
        repo.checkouts.contains(checkout),
        strings::holds(
            text::checkout_text(
                checkout,
                render::branch_width(repo.checkouts),
                config,
                with_date,
                list,
            ),
            part,
        ),
    ensures
        strings::holds(
            text::repos_text(repos, config, with_date, list),
            part,
        ),
    decreases repos.len(),
{
    broadcast use strings::lemma_holds_together;

    if repos.last() == repo {
        order::lemma_arranged_contains(
            repo.checkouts,
            |a: model::CheckoutView, b: model::CheckoutView| render::checkout_first(a, b),
            checkout,
        );
        lemma_text_checkouts(
            render::checkouts_sorted(repo.checkouts),
            render::branch_width(repo.checkouts),
            config,
            with_date,
            list,
            checkout,
            part,
        );
    } else {
        let at = choose|at: int| 0 <= at < repos.len() && repos[at] == repo;
        assert(repos.drop_last()[at] == repo);
        lemma_text_repos(repos.drop_last(), config, with_date, list, repo, checkout, part);
    }
}

proof fn lemma_markdown_problems(problems: Seq<Text>, i: int)
    requires
        0 <= i < problems.len(),
    ensures
        strings::holds(markdown::problems_text(problems), markdown::escaped(problems[i])),
    decreases problems.len(),
{
    broadcast use strings::lemma_holds_together;

    if i < problems.len() - 1 {
        assert(problems.drop_last()[i] == problems[i]);
        lemma_markdown_problems(problems.drop_last(), i);
    } else {
        strings::lemma_holds_itself(markdown::escaped(problems[i]));
    }
}

proof fn lemma_markdown_checkouts(
    checkouts: Seq<model::CheckoutView>,
    config: config::ConfigView,
    with_date: bool,
    list: bool,
    checkout: model::CheckoutView,
    part: Text,
)
    requires
        checkouts.contains(checkout),
        strings::holds(markdown::checkout_text(checkout, config, with_date, list), part),
    ensures
        strings::holds(
            markdown::checkouts_text(checkouts, config, with_date, list),
            part,
        ),
    decreases checkouts.len(),
{
    broadcast use strings::lemma_holds_together;

    if checkouts.last() != checkout {
        let at = choose|at: int| 0 <= at < checkouts.len() && checkouts[at] == checkout;
        assert(checkouts.drop_last()[at] == checkout);
        lemma_markdown_checkouts(checkouts.drop_last(), config, with_date, list, checkout, part);
    }
}

proof fn lemma_markdown_repos(
    repos: Seq<model::RepoView>,
    config: config::ConfigView,
    with_date: bool,
    list: bool,
    repo: model::RepoView,
    checkout: model::CheckoutView,
    part: Text,
)
    requires
        repos.contains(repo),
        repo.checkouts.contains(checkout),
        strings::holds(markdown::checkout_text(checkout, config, with_date, list), part),
    ensures
        strings::holds(
            markdown::repos_text(repos, config, with_date, list),
            part,
        ),
    decreases repos.len(),
{
    broadcast use strings::lemma_holds_together;

    if repos.last() == repo {
        reveal(markdown::repo_text);
        order::lemma_arranged_contains(
            repo.checkouts,
            |a: model::CheckoutView, b: model::CheckoutView| render::checkout_first(a, b),
            checkout,
        );
        lemma_markdown_checkouts(
            render::checkouts_sorted(repo.checkouts),
            config,
            with_date,
            list,
            checkout,
            part,
        );
    } else {
        let at = choose|at: int| 0 <= at < repos.len() && repos[at] == repo;
        assert(repos.drop_last()[at] == repo);
        lemma_markdown_repos(repos.drop_last(), config, with_date, list, repo, checkout, part);
    }
}

proof fn lemma_slack_problems(problems: Seq<Text>, i: int)
    requires
        0 <= i < problems.len(),
    ensures
        strings::holds(slack::problems_text(problems), slack::escaped(problems[i])),
    decreases problems.len(),
{
    broadcast use strings::lemma_holds_together;

    if i < problems.len() - 1 {
        assert(problems.drop_last()[i] == problems[i]);
        lemma_slack_problems(problems.drop_last(), i);
    } else {
        strings::lemma_holds_itself(slack::escaped(problems[i]));
    }
}

proof fn lemma_slack_checkouts(
    checkouts: Seq<model::CheckoutView>,
    config: config::ConfigView,
    with_date: bool,
    list: bool,
    checkout: model::CheckoutView,
    part: Text,
)
    requires
        checkouts.contains(checkout),
        strings::holds(slack::checkout_text(checkout, config, with_date, list), part),
    ensures
        strings::holds(
            slack::checkouts_text(checkouts, config, with_date, list),
            part,
        ),
    decreases checkouts.len(),
{
    broadcast use strings::lemma_holds_together;

    if checkouts.last() != checkout {
        let at = choose|at: int| 0 <= at < checkouts.len() && checkouts[at] == checkout;
        assert(checkouts.drop_last()[at] == checkout);
        lemma_slack_checkouts(checkouts.drop_last(), config, with_date, list, checkout, part);
    }
}

proof fn lemma_slack_repos(
    repos: Seq<model::RepoView>,
    config: config::ConfigView,
    with_date: bool,
    list: bool,
    repo: model::RepoView,
    checkout: model::CheckoutView,
    part: Text,
)
    requires
        repos.contains(repo),
        repo.checkouts.contains(checkout),
        strings::holds(slack::checkout_text(checkout, config, with_date, list), part),
    ensures
        strings::holds(
            slack::repos_text(repos, config, with_date, list),
            part,
        ),
    decreases repos.len(),
{
    broadcast use strings::lemma_holds_together;

    if repos.last() == repo {
        reveal(slack::repo_text);
        order::lemma_arranged_contains(
            repo.checkouts,
            |a: model::CheckoutView, b: model::CheckoutView| render::checkout_first(a, b),
            checkout,
        );
        lemma_slack_checkouts(
            render::checkouts_sorted(repo.checkouts),
            config,
            with_date,
            list,
            checkout,
            part,
        );
    } else {
        let at = choose|at: int| 0 <= at < repos.len() && repos[at] == repo;
        assert(repos.drop_last()[at] == repo);
        lemma_slack_repos(repos.drop_last(), config, with_date, list, repo, checkout, part);
    }
}

proof fn lemma_html_problems(problems: Seq<Text>, i: int)
    requires
        0 <= i < problems.len(),
    ensures
        strings::holds(html::problems_text(problems), html::escaped(problems[i])),
    decreases problems.len(),
{
    broadcast use strings::lemma_holds_together;

    if i < problems.len() - 1 {
        assert(problems.drop_last()[i] == problems[i]);
        lemma_html_problems(problems.drop_last(), i);
    } else {
        strings::lemma_holds_itself(html::escaped(problems[i]));
    }
}

proof fn lemma_html_checkouts(
    checkouts: Seq<model::CheckoutView>,
    config: config::ConfigView,
    with_date: bool,
    list: bool,
    checkout: model::CheckoutView,
    part: Text,
)
    requires
        checkouts.contains(checkout),
        strings::holds(html::checkout_text(checkout, config, with_date, list), part),
    ensures
        strings::holds(
            html::checkouts_text(checkouts, config, with_date, list),
            part,
        ),
    decreases checkouts.len(),
{
    broadcast use strings::lemma_holds_together;

    if checkouts.last() != checkout {
        let at = choose|at: int| 0 <= at < checkouts.len() && checkouts[at] == checkout;
        assert(checkouts.drop_last()[at] == checkout);
        lemma_html_checkouts(checkouts.drop_last(), config, with_date, list, checkout, part);
    }
}

proof fn lemma_html_repos(
    repos: Seq<model::RepoView>,
    config: config::ConfigView,
    with_date: bool,
    list: bool,
    repo: model::RepoView,
    checkout: model::CheckoutView,
    part: Text,
)
    requires
        repos.contains(repo),
        repo.checkouts.contains(checkout),
        strings::holds(html::checkout_text(checkout, config, with_date, list), part),
    ensures
        strings::holds(
            html::repos_text(repos, config, with_date, list),
            part,
        ),
    decreases repos.len(),
{
    broadcast use strings::lemma_holds_together;

    if repos.last() == repo {
        reveal(html::repo_text);
        order::lemma_arranged_contains(
            repo.checkouts,
            |a: model::CheckoutView, b: model::CheckoutView| render::checkout_first(a, b),
            checkout,
        );
        lemma_html_checkouts(
            render::checkouts_sorted(repo.checkouts),
            config,
            with_date,
            list,
            checkout,
            part,
        );
    } else {
        let at = choose|at: int| 0 <= at < repos.len() && repos[at] == repo;
        assert(repos.drop_last()[at] == repo);
        lemma_html_repos(repos.drop_last(), config, with_date, list, repo, checkout, part);
    }
}

proof fn lemma_stirring_is_busy(
    repos: Seq<model::RepoView>,
    repo: model::RepoView,
    checkout: model::CheckoutView,
)
    requires
        repos.contains(repo),
        repo.checkouts.contains(checkout),
        checkout.report.activity() != Activity::Quiet,
    ensures
        model::busy_among(repos).contains(repo),
{
    let r = choose|r: int| 0 <= r < repos.len() && repos[r] == repo;
    let c = choose|c: int| 0 <= c < repo.checkouts.len() && repo.checkouts[c] == checkout;
    model::law_work_is_never_quiet(repos, r, c);
}

proof fn lemma_sorted_is_busy(
    repos: Seq<model::RepoView>,
    repo: model::RepoView,
    checkout: model::CheckoutView,
)
    requires
        repos.contains(repo),
        repo.checkouts.contains(checkout),
        checkout.report.activity() != Activity::Quiet,
    ensures
        model::busy_among(render::repos_sorted(repos)).contains(repo),
{
    order::lemma_arranged_contains(
        repos,
        |a: model::RepoView, b: model::RepoView| render::repo_first(a, b),
        repo,
    );
    lemma_stirring_is_busy(render::repos_sorted(repos), repo, checkout);
}

// ---------------------------------------------------------------------------
// Sections
// ---------------------------------------------------------------------------

/// How many repositories the sections hold, counted without a limit.
pub open spec fn section_count(sections: Seq<render::SectionView>) -> nat
    decreases sections.len(),
{
    if sections.len() == 0 {
        0
    } else {
        section_count(sections.drop_last()) + sections.last().repos.len()
    }
}

/// Whether a section shows a checkout: one of its repositories that have
/// something to report holds it.
pub open spec fn covers(section: render::SectionView, checkout: model::CheckoutView) -> bool {
    exists|r: int|
        0 <= r < model::busy_among(section.repos).len() && (#[trigger] model::busy_among(
            section.repos,
        )[r]).checkouts.contains(checkout)
}

proof fn lemma_total_counts(sections: Seq<render::SectionView>, s: int)
    requires
        0 <= s < sections.len(),
        section_count(sections) <= usize::MAX,
    ensures
        render::section_total(sections) == section_count(sections),
        section_count(sections) >= sections[s].repos.len(),
    decreases sections.len(),
{
    let rest = sections.drop_last();
    if rest.len() > 0 {
        if s < rest.len() {
            assert(rest[s] == sections[s]);
            lemma_total_counts(rest, s);
        } else {
            lemma_total_counts(rest, 0);
        }
    }
    let more = sections.last().repos.len();
    assert(render::section_total(rest) == section_count(rest));
    assert(render::section_total(rest).wrapping_add(more as usize) == section_count(rest) + more);
}

proof fn lemma_covering_is_busy(
    sections: Seq<render::SectionView>,
    s: int,
    checkout: model::CheckoutView,
)
    requires
        0 <= s < sections.len(),
        covers(sections[s], checkout),
        section_count(sections) <= usize::MAX,
    ensures
        render::any_busy(sections),
        render::section_total(sections) != 0,
{
    lemma_total_counts(sections, s);
    let repos = sections[s].repos;
    model::law_quiet_and_busy_cover_every_repository(repos);
    assert(model::busy_among(repos).len() > 0);
}

proof fn lemma_markdown_sections(
    sections: Seq<render::SectionView>,
    config: config::ConfigView,
    with_date: bool,
    list: bool,
    s: int,
    checkout: model::CheckoutView,
    part: Text,
)
    requires
        0 <= s < sections.len(),
        covers(sections[s], checkout),
        strings::holds(markdown::checkout_text(checkout, config, with_date, list), part),
    ensures
        strings::holds(
            markdown::all_sections_text(sections, config, with_date, list),
            part,
        ),
    decreases sections.len(),
{
    broadcast use strings::lemma_holds_together;

    if s == sections.len() - 1 {
        reveal(markdown::section_text);
        let busy = model::busy_among(sections[s].repos);
        let r = choose|r: int|
            0 <= r < busy.len() && (#[trigger] busy[r]).checkouts.contains(checkout);
        lemma_markdown_repos(busy, config, with_date, list, busy[r], checkout, part);
    } else {
        assert(sections.drop_last()[s] == sections[s]);
        lemma_markdown_sections(sections.drop_last(), config, with_date, list, s, checkout, part);
    }
}

proof fn lemma_slack_sections(
    sections: Seq<render::SectionView>,
    config: config::ConfigView,
    with_date: bool,
    list: bool,
    s: int,
    checkout: model::CheckoutView,
    part: Text,
)
    requires
        0 <= s < sections.len(),
        covers(sections[s], checkout),
        strings::holds(slack::checkout_text(checkout, config, with_date, list), part),
    ensures
        strings::holds(
            slack::all_sections_text(sections, config, with_date, list),
            part,
        ),
    decreases sections.len(),
{
    broadcast use strings::lemma_holds_together;

    if s == sections.len() - 1 {
        reveal(slack::section_text);
        let busy = model::busy_among(sections[s].repos);
        let r = choose|r: int|
            0 <= r < busy.len() && (#[trigger] busy[r]).checkouts.contains(checkout);
        lemma_slack_repos(busy, config, with_date, list, busy[r], checkout, part);
    } else {
        assert(sections.drop_last()[s] == sections[s]);
        lemma_slack_sections(sections.drop_last(), config, with_date, list, s, checkout, part);
    }
}

proof fn lemma_text_sections(
    sections: Seq<render::SectionView>,
    config: config::ConfigView,
    with_date: bool,
    list: bool,
    s: int,
    checkout: model::CheckoutView,
    part: Text,
)
    requires
        0 <= s < sections.len(),
        covers(sections[s], checkout),
        forall|width: nat|
            strings::holds(
                #[trigger] text::checkout_text(checkout, width, config, with_date, list),
                part,
            ),
    ensures
        strings::holds(
            text::all_sections_text(sections, config, with_date, list),
            part,
        ),
    decreases sections.len(),
{
    broadcast use strings::lemma_holds_together;

    if s == sections.len() - 1 {
        reveal(text::section_text);
        let busy = model::busy_among(sections[s].repos);
        let r = choose|r: int|
            0 <= r < busy.len() && (#[trigger] busy[r]).checkouts.contains(checkout);
        lemma_text_repos(busy, config, with_date, list, busy[r], checkout, part);
    } else {
        assert(sections.drop_last()[s] == sections[s]);
        lemma_text_sections(sections.drop_last(), config, with_date, list, s, checkout, part);
    }
}

proof fn lemma_html_sections(
    sections: Seq<render::SectionView>,
    config: config::ConfigView,
    with_date: bool,
    list: bool,
    s: int,
    checkout: model::CheckoutView,
    part: Text,
)
    requires
        0 <= s < sections.len(),
        covers(sections[s], checkout),
        strings::holds(html::checkout_text(checkout, config, with_date, list), part),
    ensures
        strings::holds(
            html::all_sections_text(sections, config, with_date, list),
            part,
        ),
    decreases sections.len(),
{
    broadcast use strings::lemma_holds_together;

    if s == sections.len() - 1 {
        reveal(html::section_text);
        let busy = model::busy_among(sections[s].repos);
        let r = choose|r: int|
            0 <= r < busy.len() && (#[trigger] busy[r]).checkouts.contains(checkout);
        lemma_html_repos(busy, config, with_date, list, busy[r], checkout, part);
    } else {
        assert(sections.drop_last()[s] == sections[s]);
        lemma_html_sections(sections.drop_last(), config, with_date, list, s, checkout, part);
    }
}

proof fn lemma_filter_contains<A>(items: Seq<A>, pred: spec_fn(A) -> bool, item: A)
    requires
        items.contains(item),
        pred(item),
    ensures
        items.filter(pred).contains(item),
    decreases items.len(),
{
    reveal(Seq::filter);
    let rest = items.drop_last();
    if items.last() == item {
        assert(items.filter(pred).last() == item);
    } else {
        let at = choose|at: int| 0 <= at < items.len() && items[at] == item;
        assert(rest[at] == item);
        lemma_filter_contains(rest, pred, item);
        let found = choose|k: int| 0 <= k < rest.filter(pred).len() && rest.filter(pred)[k] == item;
        assert(items.filter(pred)[found] == item);
    }
}

proof fn lemma_group_covers(
    repos: Seq<model::RepoView>,
    label: Text,
    patterns: Seq<Text>,
    r: int,
    checkout: model::CheckoutView,
)
    requires
        0 <= r < repos.len(),
        repos[r].checkouts.contains(checkout),
        by_agent::belongs(checkout, label),
    ensures
        exists|k: int|
            0 <= k < by_agent::repos_for(repos, label, patterns).len()
                && (#[trigger] by_agent::repos_for(repos, label, patterns)[k]).checkouts.contains(
                checkout,
            ) && by_agent::repos_for(repos, label, patterns)[k].name == repos[r].name,
    decreases repos.len(),
{
    let all = by_agent::repos_for(repos, label, patterns);
    let before = by_agent::repos_for(repos.drop_last(), label, patterns);
    if r < repos.len() - 1 {
        assert(repos.drop_last()[r] == repos[r]);
        lemma_group_covers(repos.drop_last(), label, patterns, r, checkout);
        let k = choose|k: int|
            0 <= k < before.len() && (#[trigger] before[k]).checkouts.contains(checkout)
                && before[k].name == repos[r].name;
        assert(all[k] == before[k]);
    } else {
        lemma_filter_contains(
            repos[r].checkouts,
            |checkout: model::CheckoutView| by_agent::belongs(checkout, label),
            checkout,
        );
        assert(by_agent::checkouts_for(repos[r].checkouts, label).contains(checkout));
        assert(all[before.len() as int].checkouts.contains(checkout));
    }
}

/// Whichever way a digest is grouped, one of its sections shows a checkout that
/// is not quiet.
proof fn lemma_some_section_covers(
    digest: model::DigestView,
    config: config::ConfigView,
    r: int,
    checkout: model::CheckoutView,
) -> (s: int)
    requires
        0 <= r < digest.repos.len(),
        digest.repos[r].checkouts.contains(checkout),
        checkout.report.activity() != Activity::Quiet,
    ensures
        ({
            let sections = render::sections_of(digest, render::grouping_asked(digest, config));
            0 <= s < sections.len() && covers(sections[s], checkout)
        }),
{
    let sections = render::sections_of(digest, render::grouping_asked(digest, config));
    let patterns = config::tidied(config.ignore);
    if config.by_agent {
        by_agent::law_a_checkout_belongs_somewhere(checkout);
        let label = choose|label: Text| #[trigger] by_agent::belongs(checkout, label);
        let c = choose|c: int|
            0 <= c < digest.repos[r].checkouts.len() && digest.repos[r].checkouts[c] == checkout;
        by_agent::law_every_checkout_is_in_a_group(digest.repos, r, c, label);
        let groups = by_agent::group_order(digest.repos);
        let s = choose|s: int| 0 <= s < groups.len() && (#[trigger] groups[s]).label == label;
        let covered = by_agent::repos_for(digest.repos, label, patterns);
        lemma_group_covers(digest.repos, label, patterns, r, checkout);
        let k = choose|k: int|
            0 <= k < covered.len() && (#[trigger] covered[k]).checkouts.contains(checkout);
        lemma_sorted_is_busy(covered, covered[k], checkout);
        let busy = model::busy_among(sections[s].repos);
        assert(sections[s].repos == render::repos_sorted(covered));
        let found = choose|n: int| 0 <= n < busy.len() && busy[n] == covered[k];
        assert(busy[found].checkouts.contains(checkout));
        s
    } else {
        let repo = digest.repos[r];
        lemma_sorted_is_busy(digest.repos, repo, checkout);
        let busy = model::busy_among(sections[0].repos);
        let found = choose|n: int| 0 <= n < busy.len() && busy[n] == repo;
        assert(busy[found].checkouts.contains(checkout));
        0
    }
}

/// What a format writes of a checkout, with the branch column of the terminal
/// report so wide.
pub open spec fn block_text(
    digest: model::DigestView,
    config: config::ConfigView,
    checkout: model::CheckoutView,
    width: nat,
) -> Text {
    let with_date = render::needs_dates(digest);
    let list = !(digest.window.source is Rollup);
    match config.format {
        Format::Text => text::checkout_text(checkout, width, config, with_date, list),
        Format::Markdown => markdown::checkout_text(checkout, config, with_date, list),
        Format::Slack => slack::checkout_text(checkout, config, with_date, list),
        Format::Html | Format::Json => html::checkout_text(checkout, config, with_date, list),
    }
}

pub proof fn lemma_block_is_shown(
    digest: model::DigestView,
    config: config::ConfigView,
    r: int,
    c: int,
    part: Text,
)
    requires
        0 <= r < digest.repos.len(),
        0 <= c < digest.repos[r].checkouts.len(),
        digest.repos[r].checkouts[c].report.activity() != Activity::Quiet,
        config.format != Format::Json,
        section_count(render::sections_of(digest, render::grouping_asked(digest, config)))
            <= usize::MAX,
        forall|width: nat|
            strings::holds(
                #[trigger] block_text(digest, config, digest.repos[r].checkouts[c], width),
                part,
            ),
        part.len() > 0 ==> part.last() != '\n' || config.format != Format::Markdown,
    ensures
        render::rendered(digest, config) is Some,
        strings::holds(render::rendered(digest, config)->0, part),
{
    broadcast use strings::lemma_holds_together;

    let repo = digest.repos[r];
    let checkout = repo.checkouts[c];
    let with_date = render::needs_dates(digest);
    let list = !(digest.window.source is Rollup);
    let grouping = render::grouping_asked(digest, config);
    let sections = render::sections_of(digest, grouping);
    assert(strings::holds(block_text(digest, config, checkout, 0), part));
    let s = lemma_some_section_covers(digest, config, r, checkout);
    lemma_covering_is_busy(sections, s, checkout);
    match config.format {
        Format::Text => {
            assert forall|width: nat|
                strings::holds(
                    #[trigger] text::checkout_text(checkout, width, config, with_date, list),
                    part,
                ) by {
                assert(strings::holds(block_text(digest, config, checkout, width), part));
            }
            lemma_text_sections(sections, config, with_date, list, s, checkout, part);
            assert(strings::holds(text::body_text(digest, config, sections), part));
        },
        Format::Markdown => {
            lemma_markdown_sections(sections, config, with_date, list, s, checkout, part);
            let draft = markdown::draft_text(digest, config, grouping);
            assert(strings::holds(markdown::body_text(digest, config, sections), part));
            assert(strings::holds(draft, part));
            strings::lemma_holds_without_trailing(draft, '\n', part);
            assert(markdown::digest_text(digest, config, grouping)
                =~= strings::without_trailing(draft, '\n') + seq!['\n']);
        },
        Format::Slack => {
            lemma_slack_sections(sections, config, with_date, list, s, checkout, part);
        },
        Format::Html | Format::Json => {
            lemma_html_sections(sections, config, with_date, list, s, checkout, part);
            assert(strings::holds(html::body_text(digest, config, sections), part));
        },
    }
}

/// Every problem of every checkout is shown, in every format that people read
/// and however the digest is grouped: a failure never looks like a slow day.
pub proof fn law_every_problem_is_shown(
    digest: model::DigestView,
    config: config::ConfigView,
    r: int,
    c: int,
    i: int,
)
    requires
        0 <= r < digest.repos.len(),
        0 <= c < digest.repos[r].checkouts.len(),
        0 <= i < digest.repos[r].checkouts[c].report.problems.len(),
        config.format != Format::Json,
        section_count(render::sections_of(digest, render::grouping_asked(digest, config)))
            <= usize::MAX,
    ensures
        render::rendered(digest, config) is Some,
        strings::holds(
            render::rendered(digest, config)->0,
            problem_form(
                config.format,
                digest.repos[r].checkouts[c].report.problems[i],
            ),
        ),
{
    broadcast use strings::lemma_holds_together;

    let problems = digest.repos[r].checkouts[c].report.problems;
    match config.format {
        Format::Text => {
            reveal(text::checkout_text);
            lemma_text_problems(problems, i);
        },
        Format::Markdown => {
            reveal(markdown::checkout_text);
            lemma_markdown_problems(problems, i);
            lemma_markdown_ends_plainly(problems[i]);
        },
        Format::Slack => {
            reveal(slack::checkout_text);
            lemma_slack_problems(problems, i);
        },
        Format::Html | Format::Json => {
            reveal(html::checkout_text);
            lemma_html_problems(problems, i);
        },
    }
    lemma_block_is_shown(digest, config, r, c, problem_form(config.format, problems[i]));
}

// ---------------------------------------------------------------------------
// Agents
// ---------------------------------------------------------------------------

/// How the credit of a checkout is to be found in a format: laid out on lines
/// of its own in the terminal report, escaped in the others.
pub open spec fn credit_form(format: Format, names: Text) -> Text {
    match format {
        Format::Text => text::credit_text(Some(("agents"@, names))),
        Format::Markdown => markdown::escaped(names),
        Format::Slack => slack::escaped(names),
        Format::Html | Format::Json => html::escaped("agents"@ + ": "@ + names),
    }
}

proof fn lemma_labelled_names(agents: Seq<AgentRef<Text>>, a: int)
    requires
        0 <= a < agents.len(),
        render::agent_text(agents[a]) is Some,
    ensures
        exists|k: int|
            0 <= k < render::labelled(agents).len() && (#[trigger] render::labelled(agents)[k]).0
                == render::agent_text(agents[a])->0,
    decreases agents.len(),
{
    let before = render::labelled(agents.drop_last());
    let after = render::labelled(agents);
    if a < agents.len() - 1 {
        assert(agents.drop_last()[a] == agents[a]);
        lemma_labelled_names(agents.drop_last(), a);
        let wanted = render::agent_text(agents[a])->0;
        let k = choose|k: int| 0 <= k < before.len() && (#[trigger] before[k]).0 == wanted;
        match render::agent_text(agents.last()) {
            Some(label) => {
                render::lemma_label_at(before, label);
                assert(after[k].0 == wanted);
            },
            None => {
                assert(after[k].0 == wanted);
            },
        }
    } else {
        let label = render::agent_text(agents[a])->0;
        render::lemma_label_at(before, label);
        assert(after[render::label_at(before, label)].0 == label);
    }
}

/// An agent that was placed on a checkout with something to report is named
/// there, in every format that people read and however the digest is grouped.
pub proof fn law_every_agent_is_named(
    digest: model::DigestView,
    config: config::ConfigView,
    r: int,
    c: int,
    a: int,
)
    requires
        0 <= r < digest.repos.len(),
        0 <= c < digest.repos[r].checkouts.len(),
        0 <= a < digest.repos[r].checkouts[c].agents.len(),
        render::agent_text(digest.repos[r].checkouts[c].agents[a]) is Some,
        digest.repos[r].checkouts[c].report.activity() != Activity::Quiet,
        config.format != Format::Json,
        section_count(render::sections_of(digest, render::grouping_asked(digest, config)))
            <= usize::MAX,
    ensures
        ({
            let checkout = digest.repos[r].checkouts[c];
            let names = (render::credited(checkout)->0).1;
            &&& render::credited(checkout) is Some
            &&& strings::holds(names, render::agent_text(checkout.agents[a])->0)
            &&& render::rendered(digest, config) is Some
            &&& strings::holds(
                render::rendered(digest, config)->0,
                credit_form(config.format, names),
            )
        }),
{
    broadcast use strings::lemma_holds_together;

    let checkout = digest.repos[r].checkouts[c];
    let names = (render::credited(checkout)->0).1;
    let label = render::agent_text(checkout.agents[a])->0;
    let labels = render::labelled(checkout.agents);
    lemma_labelled_names(checkout.agents, a);
    let k = choose|k: int| 0 <= k < labels.len() && (#[trigger] labels[k]).0 == label;
    strings::lemma_holds_itself(label);
    assert(strings::holds(render::credits(labels)[k], label));
    lemma_joined_keeps(render::credits(labels), ", "@, k, label);
    strings::lemma_holds_itself(credit_form(config.format, names));
    match config.format {
        Format::Text => {
            reveal(text::checkout_text);
        },
        Format::Markdown => {
            reveal(markdown::checkout_text);
            lemma_markdown_ends_plainly(names);
        },
        Format::Slack => {
            reveal(slack::checkout_text);
        },
        Format::Html | Format::Json => {
            reveal(html::checkout_text);
        },
    }
    lemma_block_is_shown(digest, config, r, c, credit_form(config.format, names));
}

pub proof fn lemma_joined_keeps(parts: Seq<Text>, separator: Text, i: int, part: Text)
    requires
        0 <= i < parts.len(),
        strings::holds(parts[i], part),
    ensures
        strings::holds(strings::joined(parts, separator), part),
    decreases parts.len(),
{
    broadcast use strings::lemma_holds_together;

    if parts.len() > 1 && i < parts.len() - 1 {
        assert(parts.drop_last()[i] == parts[i]);
        lemma_joined_keeps(parts.drop_last(), separator, i, part);
    }
}

// ---------------------------------------------------------------------------
// Work that has not landed
// ---------------------------------------------------------------------------

/// How a sentence about a checkout is to be found in a format: laid out on
/// lines of its own in the terminal report, escaped in the others.
pub open spec fn sentence_form(format: Format, sentence: Text) -> Text {
    match format {
        Format::Text => text::sentence_text(Some(sentence)),
        Format::Markdown => markdown::escaped(sentence),
        Format::Slack => slack::escaped(sentence),
        Format::Html | Format::Json => html::escaped(sentence),
    }
}

proof fn lemma_sentence_is_shown(
    digest: model::DigestView,
    config: config::ConfigView,
    r: int,
    c: int,
    sentence: Text,
)
    requires
        0 <= r < digest.repos.len(),
        0 <= c < digest.repos[r].checkouts.len(),
        digest.repos[r].checkouts[c].report.activity() != Activity::Quiet,
        config.format != Format::Json,
        section_count(render::sections_of(digest, render::grouping_asked(digest, config)))
            <= usize::MAX,
        ({
            let report = digest.repos[r].checkouts[c].report;
            ||| render::dirty_text(report.dirty) == Some(sentence)
            ||| render::unpushed_text(report.unpushed) == Some(sentence)
        }),
    ensures
        render::rendered(digest, config) is Some,
        strings::holds(
            render::rendered(digest, config)->0,
            sentence_form(config.format, sentence),
        ),
{
    broadcast use strings::lemma_holds_together;

    strings::lemma_holds_itself(sentence_form(config.format, sentence));
    match config.format {
        Format::Text => {
            reveal(text::checkout_text);
        },
        Format::Markdown => {
            reveal(markdown::checkout_text);
            lemma_markdown_ends_plainly(sentence);
        },
        Format::Slack => {
            reveal(slack::checkout_text);
        },
        Format::Html | Format::Json => {
            reveal(html::checkout_text);
        },
    }
    lemma_block_is_shown(digest, config, r, c, sentence_form(config.format, sentence));
}

/// Work that was never committed is shown, in every format that people read and
/// however the digest is grouped: an agent that did a day of work and never
/// committed it does not look like one that did nothing.
pub proof fn law_uncommitted_work_is_shown(
    digest: model::DigestView,
    config: config::ConfigView,
    r: int,
    c: int,
)
    requires
        0 <= r < digest.repos.len(),
        0 <= c < digest.repos[r].checkouts.len(),
        !digest.repos[r].checkouts[c].report.dirty.clean(),
        config.format != Format::Json,
        section_count(render::sections_of(digest, render::grouping_asked(digest, config)))
            <= usize::MAX,
    ensures
        ({
            let sentence = render::dirty_text(digest.repos[r].checkouts[c].report.dirty);
            &&& sentence is Some
            &&& render::rendered(digest, config) is Some
            &&& strings::holds(
                render::rendered(digest, config)->0,
                sentence_form(config.format, sentence->0),
            )
        }),
{
    let report = digest.repos[r].checkouts[c].report;
    lemma_sentence_is_shown(digest, config, r, c, render::dirty_text(report.dirty)->0);
}

/// Commits that are on no remote are shown, in every format that people read
/// and however the digest is grouped.
pub proof fn law_unpushed_work_is_shown(
    digest: model::DigestView,
    config: config::ConfigView,
    r: int,
    c: int,
)
    requires
        0 <= r < digest.repos.len(),
        0 <= c < digest.repos[r].checkouts.len(),
        digest.repos[r].checkouts[c].report.unpushed.at_risk() > 0,
        config.format != Format::Json,
        section_count(render::sections_of(digest, render::grouping_asked(digest, config)))
            <= usize::MAX,
    ensures
        ({
            let sentence = render::unpushed_text(digest.repos[r].checkouts[c].report.unpushed);
            &&& sentence is Some
            &&& render::rendered(digest, config) is Some
            &&& strings::holds(
                render::rendered(digest, config)->0,
                sentence_form(config.format, sentence->0),
            )
        }),
{
    let report = digest.repos[r].checkouts[c].report;
    lemma_sentence_is_shown(digest, config, r, c, render::unpushed_text(report.unpushed)->0);
}

// ---------------------------------------------------------------------------
// Repositories
// ---------------------------------------------------------------------------

proof fn lemma_markdown_names(
    repos: Seq<model::RepoView>,
    config: config::ConfigView,
    with_date: bool,
    list: bool,
    repo: model::RepoView,
)
    requires
        repos.contains(repo),
    ensures
        strings::holds(markdown::repos_text(repos, config, with_date, list), markdown::escaped(repo.name)),
    decreases repos.len(),
{
    broadcast use strings::lemma_holds_together;

    if repos.last() == repo {
        reveal(markdown::repo_text);
        strings::lemma_holds_itself(markdown::escaped(repo.name));
    } else {
        let at = choose|at: int| 0 <= at < repos.len() && repos[at] == repo;
        assert(repos.drop_last()[at] == repo);
        lemma_markdown_names(repos.drop_last(), config, with_date, list, repo);
    }
}

proof fn lemma_slack_names(
    repos: Seq<model::RepoView>,
    config: config::ConfigView,
    with_date: bool,
    list: bool,
    repo: model::RepoView,
)
    requires
        repos.contains(repo),
    ensures
        strings::holds(slack::repos_text(repos, config, with_date, list), slack::escaped(repo.name)),
    decreases repos.len(),
{
    broadcast use strings::lemma_holds_together;

    if repos.last() == repo {
        reveal(slack::repo_text);
        strings::lemma_holds_itself(slack::escaped(repo.name));
    } else {
        let at = choose|at: int| 0 <= at < repos.len() && repos[at] == repo;
        assert(repos.drop_last()[at] == repo);
        lemma_slack_names(repos.drop_last(), config, with_date, list, repo);
    }
}

proof fn lemma_html_names(
    repos: Seq<model::RepoView>,
    config: config::ConfigView,
    with_date: bool,
    list: bool,
    repo: model::RepoView,
)
    requires
        repos.contains(repo),
    ensures
        strings::holds(html::repos_text(repos, config, with_date, list), html::escaped(repo.name)),
    decreases repos.len(),
{
    broadcast use strings::lemma_holds_together;

    if repos.last() == repo {
        reveal(html::repo_text);
        strings::lemma_holds_itself(html::escaped(repo.name));
    } else {
        let at = choose|at: int| 0 <= at < repos.len() && repos[at] == repo;
        assert(repos.drop_last()[at] == repo);
        lemma_html_names(repos.drop_last(), config, with_date, list, repo);
    }
}

/// How the name of a repository is to be found in a format that has markup.
pub open spec fn name_form(format: Format, name: Text) -> Text {
    match format {
        Format::Markdown => markdown::escaped(name),
        Format::Slack => slack::escaped(name),
        Format::Text | Format::Html | Format::Json => html::escaped(name),
    }
}

proof fn lemma_loudest_works(checkouts: Seq<model::CheckoutView>) -> (c: int)
    requires
        model::loudest(checkouts) != Activity::Quiet,
    ensures
        0 <= c < checkouts.len(),
        checkouts[c].report.activity() != Activity::Quiet,
    decreases checkouts.len(),
{
    if checkouts.last().report.activity() != Activity::Quiet {
        checkouts.len() - 1
    } else {
        lemma_loudest_works(checkouts.drop_last())
    }
}

/// A repository that has something to report has a checkout that has.
proof fn lemma_busy_works(repos: Seq<model::RepoView>, repo: model::RepoView) -> (c: int)
    requires
        model::busy_among(repos).contains(repo),
    ensures
        0 <= c < repo.checkouts.len(),
        repo.checkouts[c].report.activity() != Activity::Quiet,
{
    let busy = model::busy_among(repos);
    broadcast use vstd::seq_lib::group_filter_ensures;

    let at = choose|at: int| 0 <= at < busy.len() && busy[at] == repo;
    assert(busy[at].activity() != Activity::Quiet);
    lemma_loudest_works(repo.checkouts)
}

proof fn lemma_quiet_or_busy(repos: Seq<model::RepoView>, repo: model::RepoView)
    requires
        repos.contains(repo),
    ensures
        ({
            let sorted = render::repos_sorted(repos);
            model::busy_among(sorted).contains(repo) || model::quiet_among(sorted).contains(repo)
        }),
        render::repos_sorted(repos).len() == repos.len(),
{
    let first = |a: model::RepoView, b: model::RepoView| render::repo_first(a, b);
    order::lemma_arranged_contains(repos, first, repo);
    order::law_arranged_keeps_items(repos, first);
    let sorted = render::repos_sorted(repos);
    model::law_quiet_and_busy_cover_every_repository(sorted);
    let at = choose|at: int| 0 <= at < sorted.len() && sorted[at] == repo;
    assert(sorted[at] == repo);
}

/// Whether a section says something of a repository: it has something to
/// report, or the section names those that have not.
pub open spec fn lists(
    sections: Seq<render::SectionView>,
    s: int,
    repo: model::RepoView,
) -> bool {
    &&& 0 <= s < sections.len()
    &&& {
        ||| model::busy_among(sections[s].repos).contains(repo)
        ||| sections[s].heading is Some && model::quiet_among(sections[s].repos).contains(repo)
    }
}

proof fn lemma_markdown_quiet(repos: Seq<model::RepoView>, repo: model::RepoView)
    requires
        model::quiet_among(repos).contains(repo),
    ensures
        strings::holds(
            markdown::quiet_text(model::quiet_among(repos)),
            markdown::escaped(repo.name),
        ),
{
    broadcast use strings::lemma_holds_together;

    let quiet = model::quiet_among(repos);
    let names = markdown::names_of(quiet);
    let at = choose|at: int| 0 <= at < quiet.len() && quiet[at] == repo;
    assert(names[at] == markdown::escaped(repo.name));
    strings::lemma_holds_itself(names[at]);
    lemma_joined_keeps(names, ", "@, at, names[at]);
}

proof fn lemma_markdown_listed(
    sections: Seq<render::SectionView>,
    config: config::ConfigView,
    with_date: bool,
    list: bool,
    s: int,
    repo: model::RepoView,
)
    requires
        lists(sections, s, repo),
    ensures
        strings::holds(
            markdown::all_sections_text(sections, config, with_date, list),
            markdown::escaped(repo.name),
        ),
    decreases sections.len(),
{
    broadcast use strings::lemma_holds_together;

    if s == sections.len() - 1 {
        reveal(markdown::section_text);
        let repos = sections[s].repos;
        if model::busy_among(repos).contains(repo) {
            lemma_markdown_names(model::busy_among(repos), config, with_date, list, repo);
        } else {
            lemma_markdown_quiet(repos, repo);
        }
    } else {
        assert(sections.drop_last()[s] == sections[s]);
        lemma_markdown_listed(sections.drop_last(), config, with_date, list, s, repo);
    }
}

proof fn lemma_slack_quiet(repos: Seq<model::RepoView>, repo: model::RepoView)
    requires
        model::quiet_among(repos).contains(repo),
    ensures
        strings::holds(
            slack::quiet_text(model::quiet_among(repos)),
            slack::escaped(repo.name),
        ),
{
    broadcast use strings::lemma_holds_together;

    let quiet = model::quiet_among(repos);
    let names = slack::names_of(quiet);
    let at = choose|at: int| 0 <= at < quiet.len() && quiet[at] == repo;
    assert(names[at] == slack::escaped(repo.name));
    strings::lemma_holds_itself(names[at]);
    lemma_joined_keeps(names, ", "@, at, names[at]);
}

proof fn lemma_slack_listed(
    sections: Seq<render::SectionView>,
    config: config::ConfigView,
    with_date: bool,
    list: bool,
    s: int,
    repo: model::RepoView,
)
    requires
        lists(sections, s, repo),
    ensures
        strings::holds(
            slack::all_sections_text(sections, config, with_date, list),
            slack::escaped(repo.name),
        ),
    decreases sections.len(),
{
    broadcast use strings::lemma_holds_together;

    if s == sections.len() - 1 {
        reveal(slack::section_text);
        let repos = sections[s].repos;
        if model::busy_among(repos).contains(repo) {
            lemma_slack_names(model::busy_among(repos), config, with_date, list, repo);
        } else {
            lemma_slack_quiet(repos, repo);
        }
    } else {
        assert(sections.drop_last()[s] == sections[s]);
        lemma_slack_listed(sections.drop_last(), config, with_date, list, s, repo);
    }
}

proof fn lemma_html_quiet(repos: Seq<model::RepoView>, repo: model::RepoView)
    requires
        model::quiet_among(repos).contains(repo),
    ensures
        strings::holds(
            html::quiet_text(repos),
            html::escaped(repo.name),
        ),
{
    broadcast use strings::lemma_holds_together;

    let quiet = model::quiet_among(repos);
    let names = html::all_escaped(text::names_of(quiet));
    let at = choose|at: int| 0 <= at < quiet.len() && quiet[at] == repo;
    assert(names[at] == html::escaped(repo.name));
    strings::lemma_holds_itself(names[at]);
    lemma_joined_keeps(names, ", "@, at, names[at]);
}

proof fn lemma_html_listed(
    sections: Seq<render::SectionView>,
    config: config::ConfigView,
    with_date: bool,
    list: bool,
    s: int,
    repo: model::RepoView,
)
    requires
        lists(sections, s, repo),
    ensures
        strings::holds(
            html::all_sections_text(sections, config, with_date, list),
            html::escaped(repo.name),
        ),
    decreases sections.len(),
{
    broadcast use strings::lemma_holds_together;

    if s == sections.len() - 1 {
        reveal(html::section_text);
        let repos = sections[s].repos;
        if model::busy_among(repos).contains(repo) {
            lemma_html_names(model::busy_among(repos), config, with_date, list, repo);
        } else {
            lemma_html_quiet(repos, repo);
        }
    } else {
        assert(sections.drop_last()[s] == sections[s]);
        lemma_html_listed(sections.drop_last(), config, with_date, list, s, repo);
    }
}

/// However a digest is grouped, each repository stands in a section: the whole
/// of it where the digest is not grouped, else what a group has of it.
proof fn lemma_some_section_has(
    digest: model::DigestView,
    config: config::ConfigView,
    r: int,
) -> (found: (int, model::RepoView))
    requires
        0 <= r < digest.repos.len(),
        config.by_agent ==> digest.repos[r].checkouts.len() > 0,
    ensures
        ({
            let sections = render::sections_of(digest, render::grouping_asked(digest, config));
            let repos = sections[found.0].repos;
            &&& 0 <= found.0 < sections.len()
            &&& model::busy_among(repos).contains(found.1) || model::quiet_among(repos).contains(
                found.1,
            )
            &&& found.1.name == digest.repos[r].name
            &&& if config.by_agent {
                sections[found.0].heading is Some
            } else {
                repos == render::repos_sorted(digest.repos) && found.1 == digest.repos[r]
            }
        }),
{
    let sections = render::sections_of(digest, render::grouping_asked(digest, config));
    let patterns = config::tidied(config.ignore);
    if config.by_agent {
        let checkout = digest.repos[r].checkouts[0];
        by_agent::law_a_checkout_belongs_somewhere(checkout);
        let label = choose|label: Text| #[trigger] by_agent::belongs(checkout, label);
        by_agent::law_every_checkout_is_in_a_group(digest.repos, r, 0, label);
        let groups = by_agent::group_order(digest.repos);
        let s = choose|s: int| 0 <= s < groups.len() && (#[trigger] groups[s]).label == label;
        let covered = by_agent::repos_for(digest.repos, label, patterns);
        lemma_group_covers(digest.repos, label, patterns, r, checkout);
        let k = choose|k: int|
            0 <= k < covered.len() && (#[trigger] covered[k]).checkouts.contains(checkout)
                && covered[k].name == digest.repos[r].name;
        assert(sections[s].repos == render::repos_sorted(covered));
        lemma_quiet_or_busy(covered, covered[k]);
        (s, covered[k])
    } else {
        assert(digest.repos.contains(digest.repos[r]));
        lemma_quiet_or_busy(digest.repos, digest.repos[r]);
        (0, digest.repos[r])
    }
}

proof fn lemma_ungrouped(digest: model::DigestView)
    ensures
        ({
            let sections = render::sections_of(digest, None);
            let sorted = render::repos_sorted(digest.repos);
            &&& render::no_headings(sections)
            &&& render::all_quiet(sections) == model::quiet_among(sorted)
            &&& render::any_busy(sections) == (model::busy_among(sorted).len() > 0)
        }),
{
    let sections = render::sections_of(digest, None);
    let quiet = model::quiet_among(render::repos_sorted(digest.repos));
    assert(sections.drop_last() =~= Seq::empty());
    assert(render::all_quiet(sections) =~= quiet) by {
        assert(render::all_quiet(sections.drop_last()) =~= Seq::empty());
    }
    assert(sections[0].repos == render::repos_sorted(digest.repos));
}

/// Every repository is named, with something to report or without: a quiet one
/// is summarised, never dropped. A digest that is grouped by agent names what a
/// group holds, so a repository without a checkout stands in none; and where no
/// group has anything to report, Markdown and Slack state that, with the number
/// of repositories in place of their names.
pub proof fn law_every_repository_is_named(
    digest: model::DigestView,
    config: config::ConfigView,
    r: int,
)
    requires
        0 <= r < digest.repos.len(),
        config.format == Format::Markdown || config.format == Format::Slack || config.format
            == Format::Html,
        ({
            let sections = render::sections_of(digest, render::grouping_asked(digest, config));
            &&& config.format != Format::Html ==> section_count(sections) <= usize::MAX
            &&& config.by_agent ==> digest.repos[r].checkouts.len() > 0
            &&& config.by_agent && config.format != Format::Html ==> render::any_busy(sections)
        }),
    ensures
        render::rendered(digest, config) is Some,
        strings::holds(
            render::rendered(digest, config)->0,
            name_form(config.format, digest.repos[r].name),
        ),
{
    broadcast use strings::lemma_holds_together;

    let with_date = render::needs_dates(digest);
    let list = !(digest.window.source is Rollup);
    let grouping = render::grouping_asked(digest, config);
    let sections = render::sections_of(digest, grouping);
    let sorted = render::repos_sorted(digest.repos);
    let (s, repo) = lemma_some_section_has(digest, config, r);
    let repos = sections[s].repos;
    let busy = model::busy_among(repos).contains(repo);
    model::law_quiet_and_busy_cover_every_repository(repos);
    if busy {
        assert(model::busy_among(repos).len() > 0);
    }
    if config.format != Format::Html {
        lemma_total_counts(sections, s);
        assert(repos.len() > 0);
    }
    if !config.by_agent {
        lemma_ungrouped(digest);
    }
    match config.format {
        Format::Markdown => {
            let wanted = markdown::escaped(repo.name);
            let draft = markdown::draft_text(digest, config, grouping);
            if lists(sections, s, repo) {
                lemma_markdown_listed(sections, config, with_date, list, s, repo);
                assert(strings::holds(markdown::body_text(digest, config, sections), wanted));
            } else {
                lemma_markdown_quiet(sorted, repo);
                assert(strings::holds(markdown::closing_text(sections), wanted));
            }
            assert(strings::holds(draft, wanted));
            lemma_markdown_ends_plainly(repo.name);
            strings::lemma_holds_without_trailing(draft, '\n', wanted);
            assert(markdown::digest_text(digest, config, grouping) =~= strings::without_trailing(
                draft,
                '\n',
            ) + seq!['\n']);
        },
        Format::Slack => {
            let wanted = slack::escaped(repo.name);
            if lists(sections, s, repo) {
                lemma_slack_listed(sections, config, with_date, list, s, repo);
                assert(strings::holds(slack::body_text(digest, config, sections), wanted));
            } else {
                lemma_slack_quiet(sorted, repo);
                assert(strings::holds(slack::closing_text(sections), wanted));
            }
        },
        _ => {
            let wanted = html::escaped(repo.name);
            if lists(sections, s, repo) && render::any_busy(sections) {
                lemma_html_listed(sections, config, with_date, list, s, repo);
                assert(strings::holds(html::body_text(digest, config, sections), wanted));
            } else {
                let whole = digest.repos[r];
                assert(digest.repos.contains(whole));
                lemma_quiet_or_busy(digest.repos, whole);
                if config.by_agent && model::busy_among(sorted).contains(whole) {
                    let c = lemma_busy_works(sorted, whole);
                    let t = lemma_some_section_covers(digest, config, r, whole.checkouts[c]);
                    assert(model::busy_among(sections[t].repos).len() > 0);
                }
                lemma_html_quiet(sorted, whole);
                assert(strings::holds(html::closing_text(digest, sections), wanted));
            }
        },
    }
}

/// A digest in Markdown or for Slack that holds repositories and has nothing to
/// report of any says so, with their number: a quiet day and an empty screen
/// never look the same.
pub proof fn law_a_quiet_day_is_stated(digest: model::DigestView, config: config::ConfigView)
    requires
        config.format == Format::Markdown || config.format == Format::Slack,
        ({
            let sections = render::sections_of(digest, render::grouping_asked(digest, config));
            &&& 0 < section_count(sections) <= usize::MAX
            &&& !render::any_busy(sections)
        }),
    ensures
        render::rendered(digest, config) is Some,
        strings::holds(
            render::rendered(digest, config)->0,
            "Nothing landed in this window, across "@ + render::counted(
                section_count(
                    render::sections_of(digest, render::grouping_asked(digest, config)),
                ),
                "repository"@,
                "repositories"@,
            ) + "."@,
        ),
{
    broadcast use strings::lemma_holds_together;

    let grouping = render::grouping_asked(digest, config);
    let sections = render::sections_of(digest, grouping);
    lemma_total_counts(sections, 0);
    let told = "Nothing landed in this window, across "@ + render::counted(
        section_count(sections),
        "repository"@,
        "repositories"@,
    );
    let wanted = told + "."@;
    strings::lemma_holds_itself(wanted);
    if config.format == Format::Markdown {
        let draft = markdown::draft_text(digest, config, grouping);
        assert(strings::holds(markdown::body_text(digest, config, sections), wanted));
        assert(strings::holds(draft, wanted));
        assert(wanted.last() == '.') by {
            reveal_strlit(".");
        }
        strings::lemma_holds_without_trailing(draft, '\n', wanted);
        assert(markdown::digest_text(digest, config, grouping) =~= strings::without_trailing(
            draft,
            '\n',
        ) + seq!['\n']);
    } else {
        assert(told + ".\n"@ =~= wanted + "\n"@) by {
            reveal_strlit(".");
            reveal_strlit("\n");
            reveal_strlit(".\n");
        }
        assert(strings::holds(slack::body_text(digest, config, sections), wanted));
    }
}

proof fn lemma_text_blocks(
    repos: Seq<model::RepoView>,
    config: config::ConfigView,
    with_date: bool,
    list: bool,
    repo: model::RepoView,
)
    requires
        repos.contains(repo),
    ensures
        strings::holds(
            text::repos_text(repos, config, with_date, list),
            text::repo_text(repo, config, with_date, list),
        ),
    decreases repos.len(),
{
    broadcast use strings::lemma_holds_together;

    if repos.last() == repo {
        strings::lemma_holds_itself(text::repo_text(repo, config, with_date, list));
    } else {
        let at = choose|at: int| 0 <= at < repos.len() && repos[at] == repo;
        assert(repos.drop_last()[at] == repo);
        lemma_text_blocks(repos.drop_last(), config, with_date, list, repo);
    }
}

/// Whether a terminal report says something of a repository in a list: its
/// block stands in the report, or it is one of those in the list that have
/// nothing to report, and the line that names them does.
pub open spec fn reported(
    report: Text,
    repos: Seq<model::RepoView>,
    repo: model::RepoView,
    digest: model::DigestView,
    config: config::ConfigView,
) -> bool {
    ||| strings::holds(
        report,
        text::repo_text(
            repo,
            config,
            render::needs_dates(digest),
            !(digest.window.source is Rollup),
        ),
    )
    ||| model::quiet_among(repos).contains(repo) && strings::holds(
        report,
        text::wrapped_text(
            "  quiet: "@,
            "         "@,
            strings::joined(text::names_of(model::quiet_among(repos)), ", "@),
        ),
    )
}

proof fn lemma_text_quiet(repos: Seq<model::RepoView>)
    requires
        model::quiet_among(repos).len() > 0,
    ensures
        strings::holds(
            text::quiet_text(repos),
            text::wrapped_text(
                "  quiet: "@,
                "         "@,
                strings::joined(text::names_of(model::quiet_among(repos)), ", "@),
            ),
        ),
{
    broadcast use strings::lemma_holds_together;

    strings::lemma_holds_itself(
        text::wrapped_text(
            "  quiet: "@,
            "         "@,
            strings::joined(text::names_of(model::quiet_among(repos)), ", "@),
        ),
    );
}

proof fn lemma_text_listed(
    sections: Seq<render::SectionView>,
    digest: model::DigestView,
    config: config::ConfigView,
    s: int,
    repo: model::RepoView,
)
    requires
        lists(sections, s, repo),
    ensures
        reported(
            text::all_sections_text(
                sections,
                config,
                render::needs_dates(digest),
                !(digest.window.source is Rollup),
            ),
            sections[s].repos,
            repo,
            digest,
            config,
        ),
    decreases sections.len(),
{
    broadcast use strings::lemma_holds_together;

    let with_date = render::needs_dates(digest);
    let list = !(digest.window.source is Rollup);
    if s == sections.len() - 1 {
        reveal(text::section_text);
        let repos = sections[s].repos;
        if model::busy_among(repos).contains(repo) {
            lemma_text_blocks(model::busy_among(repos), config, with_date, list, repo);
        } else {
            lemma_text_quiet(repos);
        }
    } else {
        assert(sections.drop_last()[s] == sections[s]);
        lemma_text_listed(sections.drop_last(), digest, config, s, repo);
    }
}

/// Every repository is in the terminal report: the block of one that has
/// something to report stands in it, and one that has not is among those whose
/// names a line of quiet repositories lists. In a report that is grouped by
/// agent that holds of what a group has of the repository, unless no group has
/// anything to report; a repository without a checkout is in no group.
pub proof fn law_every_repository_is_in_the_terminal_report(
    digest: model::DigestView,
    config: config::ConfigView,
    r: int,
)
    requires
        0 <= r < digest.repos.len(),
        config.by_agent ==> digest.repos[r].checkouts.len() > 0,
    ensures
        ({
            let report = text::report_text(digest, config);
            let sections = render::sections_of(digest, render::grouping_asked(digest, config));
            let repo = digest.repos[r];
            if config.by_agent && render::any_busy(sections) {
                exists|s: int, part: model::RepoView|
                    0 <= s < sections.len() && part.name == repo.name && #[trigger] reported(
                        report,
                        sections[s].repos,
                        part,
                        digest,
                        config,
                    )
            } else {
                reported(report, render::repos_sorted(digest.repos), repo, digest, config)
            }
        }),
{
    broadcast use strings::lemma_holds_together;

    let report = text::report_text(digest, config);
    let sections = render::sections_of(digest, render::grouping_asked(digest, config));
    let sorted = render::repos_sorted(digest.repos);
    let (s, part) = lemma_some_section_has(digest, config, r);
    let body = text::body_text(digest, config, sections);
    if !config.by_agent {
        lemma_ungrouped(digest);
    }
    if render::any_busy(sections) && lists(sections, s, part) {
        lemma_text_listed(sections, digest, config, s, part);
        assert(reported(body, sections[s].repos, part, digest, config));
        assert(reported(report, sections[s].repos, part, digest, config));
    } else {
        let repo = digest.repos[r];
        assert(digest.repos.contains(repo));
        lemma_quiet_or_busy(digest.repos, repo);
        if model::busy_among(sorted).contains(repo) {
            let c = lemma_busy_works(sorted, repo);
            let t = lemma_some_section_covers(digest, config, r, repo.checkouts[c]);
            assert(model::busy_among(sections[t].repos).len() > 0);
            assert(!config.by_agent && lists(sections, s, part));
        }
        lemma_text_quiet(sorted);
        assert(reported(text::closing_text(digest, sections), sorted, repo, digest, config));
    }
}

} // verus!
