//! Slack mrkdwn.
//!
//! Not Markdown: bold is a single asterisk, there is no list syntax at all, and
//! `&`, `<` and `>` have to arrive as entities. Bullets are literal characters
//! with their own indentation. Only those three characters are special, so
//! escaping anything else would put backslashes in front of ordinary
//! punctuation.

use vstd::prelude::*;

use crate::by_agent::Grouping;
use crate::by_agent;
use crate::config::Config;
use crate::config;
use crate::model;
use crate::model::{CheckoutDigest, CheckoutReport, Commit, Comparison, Digest, Movement, Note,
    RepoComparison, RepoDigest, Severity, Text, OID_COLUMNS};
use crate::render;
use crate::render::markdown;
use crate::render::{Section, REF_UNLIMITED};
use crate::strings;

verus! {

/// A path long enough to be useful in a channel and short enough not to wrap on
/// a phone.
pub const SLACK_PATH_COLUMNS: usize = 60;

// ---------------------------------------------------------------------------
// Escaping
// ---------------------------------------------------------------------------

/// A character as it goes out.
pub open spec fn entity(c: char) -> Text {
    if c == '&' {
        "&amp;"@
    } else if c == '<' {
        "&lt;"@
    } else if c == '>' {
        "&gt;"@
    } else {
        seq![c]
    }
}

/// The text with the three characters Slack interprets, and only those, made
/// entities.
pub open spec fn escaped(s: Text) -> Text
    decreases s.len(),
{
    if s.len() == 0 {
        Seq::empty()
    } else {
        escaped(s.drop_last()) + entity(s.last())
    }
}

pub fn esc(s: &str) -> (out: String)
    ensures
        out@ == escaped(s@),
{
    let mut out = String::new();
    for ch in it: s.chars()
        invariant
            it.seq() == s@,
            out@ == escaped(s@.take(it.index() as int)),
    {
        assert(s@.take(it.index() + 1).drop_last() =~= s@.take(it.index() as int));
        let ghost before = out@;
        if ch == '&' {
            out.append("&amp;");
        } else if ch == '<' {
            out.append("&lt;");
        } else if ch == '>' {
            out.append("&gt;");
        } else {
            out.push(ch);
            assert(before.push(ch) =~= before + seq![ch]);
        }
    }
    assert(s@.take(s@.len() as int) =~= s@);
    out
}

/// The escaped form of a text holds none of the characters that open or close
/// an instruction: a subject cannot become a link or mention a channel.
pub proof fn law_escaped_text_stays_text(s: Text)
    ensures
        !escaped(s).contains('<'),
        !escaped(s).contains('>'),
    decreases s.len(),
{
    if s.len() > 0 {
        law_escaped_text_stays_text(s.drop_last());
        reveal_strlit("&amp;");
        reveal_strlit("&lt;");
        reveal_strlit("&gt;");
        let before = escaped(s.drop_last());
        let last = entity(s.last());
        assert(!last.contains('<') && !last.contains('>'));
        assert forall|i: int| 0 <= i < escaped(s).len() implies escaped(s)[i] != '<' && escaped(
            s,
        )[i] != '>' by {
            if i < before.len() {
                assert(before.contains(before[i]));
            } else {
                assert(last.contains(last[i - before.len()]));
            }
        }
    }
}

/// A value flattened for a code span. There is no escape for a backtick inside
/// one, so it becomes an apostrophe.
pub open spec fn flattened(s: Text) -> Text {
    Seq::new(
        s.len(),
        |i: int|
            if s[i] == '`' {
                '\''
            } else if strings::control(s[i]) {
                ' '
            } else {
                s[i]
            },
    )
}

/// What stands between the backticks of a code span. Slack reads the three
/// characters there too, so they are entities there too.
pub open spec fn span(s: Text) -> Text {
    escaped(flattened(s))
}

proof fn lemma_escaped_adds_no_end(s: Text)
    requires
        forall|i: int|
            0 <= i < s.len() ==> #[trigger] s[i] != '`' && !strings::control(s[i]),
    ensures
        forall|i: int|
            0 <= i < escaped(s).len() ==> #[trigger] escaped(s)[i] != '`' && !strings::control(
                escaped(s)[i],
            ),
    decreases s.len(),
{
    if s.len() > 0 {
        let rest = s.drop_last();
        assert forall|i: int| 0 <= i < rest.len() implies #[trigger] rest[i] != '`'
            && !strings::control(rest[i]) by {
            assert(rest[i] == s[i]);
        }
        lemma_escaped_adds_no_end(rest);
        reveal_strlit("&amp;");
        reveal_strlit("&lt;");
        reveal_strlit("&gt;");
        let before = escaped(rest);
        let last = entity(s.last());
        assert(s.last() == s[s.len() - 1]);
        assert forall|i: int| 0 <= i < escaped(s).len() implies #[trigger] escaped(s)[i] != '`'
            && !strings::control(escaped(s)[i]) by {
            if i < before.len() {
                assert(escaped(s)[i] == before[i]);
            } else {
                assert(escaped(s)[i] == last[i - before.len()]);
            }
        }
    }
}

/// A code span ends where it is meant to end, on the line it began on: neither
/// a backtick nor a line break is left inside.
pub proof fn law_a_code_span_is_never_closed_early(s: Text)
    ensures
        forall|i: int|
            0 <= i < span(s).len() ==> #[trigger] span(s)[i] != '`' && !strings::control(
                span(s)[i],
            ),
{
    lemma_escaped_adds_no_end(flattened(s));
}

fn flatten(s: &str) -> (out: String)
    ensures
        out@ == flattened(s@),
{
    let mut out = String::new();
    for ch in it: s.chars()
        invariant
            it.seq() == s@,
            out@ == flattened(s@).take(it.index() as int),
    {
        let shown = if ch == '`' {
            '\''
        } else if strings::is_control(ch) {
            ' '
        } else {
            ch
        };
        out.push(shown);
        assert(out@ =~= flattened(s@).take(it.index() + 1));
    }
    assert(flattened(s@).take(s@.len() as int) =~= flattened(s@));
    out
}

pub fn code(s: &str) -> (out: String)
    ensures
        out@ == span(s@),
{
    esc(flatten(s).as_str())
}

/// Each text escaped, in order.
pub open spec fn all_escaped(list: Seq<Text>) -> Seq<Text> {
    Seq::new(list.len(), |i: int| escaped(list[i]))
}

fn esc_all(list: &Vec<String>) -> (out: Vec<String>)
    ensures
        strings::views(out@) == all_escaped(strings::views(list@)),
{
    broadcast use strings::group_lists;

    let ghost all = all_escaped(strings::views(list@));
    let mut out: Vec<String> = Vec::new();
    for i in 0..list.len()
        invariant
            all == all_escaped(strings::views(list@)),
            strings::views(out@) == all.take(i as int),
    {
        broadcast use strings::group_lists;

        let shown = esc(list[i].as_str());
        assert(strings::views(list@)[i as int] == list@[i as int]@);
        assert(all[i as int] == shown@);
        out.push(shown);
    }
    assert(all.take(all.len() as int) =~= all);
    out
}

// ---------------------------------------------------------------------------
// Lines
// ---------------------------------------------------------------------------

/// A third-level line. Indented rather than bulleted.
pub open spec fn sub_text(s: Text) -> Text {
    "        "@ + s + "\n"@
}

fn sub_line(s: &str) -> (out: String)
    ensures
        out@ == sub_text(s@),
{
    strings::cat3("        ", s, "\n")
}

pub open spec fn marked_text(loud: bool, message: Text) -> Text {
    if loud {
        "*problem:* "@ + escaped(message)
    } else {
        escaped(message)
    }
}

fn marked(loud: bool, message: &str) -> (out: String)
    ensures
        out@ == marked_text(loud, message@),
{
    if loud {
        strings::cat2("*problem:* ", esc(message).as_str())
    } else {
        esc(message)
    }
}

pub open spec fn header_text(
    digest: model::DigestView,
    grouping: Option<by_agent::GroupingView>,
) -> Text {
    let window = digest.window;
    let start = "*standup* \u{2014} since "@ + escaped(window.since.full());
    let until = match window.until {
        Some(until) => start + " until "@ + escaped(until.full()),
        None => start,
    };
    let opening = until + " (generated "@ + escaped(render::generated_text(digest)) + ")"@ + "\n"@;
    let noted = match render::window_text(window) {
        Some(note) => opening + escaped(note) + "\n"@,
        None => opening,
    };
    let grouped = match grouping {
        Some(grouping) => noted + escaped(grouping.warning()) + "\n"@,
        None => noted,
    };
    grouped + "\n"@
}

fn header(digest: &Digest, grouping: Option<&Grouping>) -> (out: String)
    ensures
        out@ == header_text(digest@, strings::view_of(grouping)),
{
    let window = &digest.window;
    let mut head = strings::cat2(
        "*standup* \u{2014} since ",
        esc(window.since.full().as_str()).as_str(),
    );
    if let Some(until) = &window.until {
        head = strings::cat3(head.as_str(), " until ", esc(until.full().as_str()).as_str());
    }
    let mut out = strings::cat5(
        head.as_str(),
        " (generated ",
        esc(render::generated_display(digest).as_str()).as_str(),
        ")",
        "\n",
    );
    if let Some(note) = render::window_note(window) {
        out = strings::cat3(out.as_str(), esc(note.as_str()).as_str(), "\n");
    }
    if let Some(grouping) = grouping {
        out = strings::cat3(out.as_str(), esc(grouping.caveat().as_str()).as_str(), "\n");
    }
    out.append("\n");
    out
}

// ---------------------------------------------------------------------------
// One repository
// ---------------------------------------------------------------------------

pub open spec fn commit_text(commit: model::CommitView, with_date: bool) -> Text {
    let when = span(render::instant_text(commit.committed, with_date));
    let oid = span(strings::leading(commit.oid, OID_COLUMNS as nat));
    sub_text("`"@ + when + "` `"@ + oid + "` "@ + escaped(strings::trimmed(commit.subject)))
}

pub open spec fn commits_text(commits: Seq<model::CommitView>, with_date: bool) -> Text
    decreases commits.len(),
{
    if commits.len() == 0 {
        Seq::empty()
    } else {
        commits_text(commits.drop_last(), with_date) + commit_text(commits.last(), with_date)
    }
}

pub open spec fn remainder_text(held_back: nat) -> Text {
    if held_back == 0 {
        Seq::empty()
    } else {
        sub_text(
            "\u{2026} "@ + render::counted(held_back, "more commit"@, "more commits"@)
                + " not listed"@,
        )
    }
}

pub open spec fn commit_list_text(
    commits: Seq<model::CommitView>,
    max: nat,
    with_date: bool,
) -> Text {
    commits_text(render::shown_commits(commits, max), with_date) + remainder_text(
        render::held_back(commits, max),
    )
}

fn commit_line(commit: &Commit, with_date: bool) -> (out: String)
    ensures
        out@ == commit_text(commit@, with_date),
{
    let when = code(render::commit_time(&commit.committed, with_date).as_str());
    let oid = code(commit.short_oid().as_str());
    let subject = esc(strings::trim(commit.subject.as_str()).as_str());
    let start = strings::cat5("`", when.as_str(), "` `", oid.as_str(), "` ");
    sub_line(strings::cat2(start.as_str(), subject.as_str()).as_str())
}

fn commit_lines(report: &CheckoutReport, max: usize, with_date: bool) -> (out: String)
    ensures
        out@ == commit_list_text(report@.commits, max as nat, with_date),
{
    broadcast use strings::group_lists;

    let (shown, held_back) = render::listed_commits(report, max);
    let ghost all = strings::views(shown@);
    let mut out = String::new();
    for i in 0..shown.len()
        invariant
            all == strings::views(shown@),
            out@ == commits_text(all.take(i as int), with_date),
    {
        broadcast use strings::group_lists;

        assert(all.take(i as int).push(all[i as int]) == all.take(i + 1));
        assert(all[i as int] == shown@[i as int]@);
        out.append(commit_line(shown[i], with_date).as_str());
    }
    assert(all.take(all.len() as int) =~= all);
    let rest = if held_back > 0 {
        let counted = render::quantity(held_back, "more commit", "more commits");
        sub_line(strings::cat3("\u{2026} ", counted.as_str(), " not listed").as_str())
    } else {
        String::new()
    };
    out.append(rest.as_str());
    out
}

/// The line a checkout begins with.
pub open spec fn headline_text(report: model::ReportView, home: Option<Text>) -> Text {
    let branch = span(render::cut_right(render::head_text(report.head), SLACK_PATH_COLUMNS as nat));
    let path = span(
        render::short_path(render::from_home(report.path, home), SLACK_PATH_COLUMNS as nat),
    );
    let start = "    \u{25e6} `"@ + branch + "` \u{2014} `"@ + path + "`"@;
    let quiet = report.activity() == model::Activity::Quiet;
    let remark = render::head_remark(report.head, REF_UNLIMITED as nat);
    let told = if !quiet {
        start + " \u{2014} "@ + strings::joined(
            all_escaped(render::clauses(report, REF_UNLIMITED as nat)),
            " \u{2014} "@,
        )
    } else if remark is None {
        start + " \u{2014} "@ + "quiet"@
    } else {
        start
    };
    told + "\n"@
}

fn headline(report: &CheckoutReport, home: &Option<String>, has_remark: bool) -> (out: String)
    requires
        has_remark == (render::head_remark(report@.head, REF_UNLIMITED as nat) is Some),
    ensures
        out@ == headline_text(report@, strings::view_of(*home)),
{
    let branch = render::truncate_right(
        render::head_label(&report.head).as_str(),
        SLACK_PATH_COLUMNS,
    );
    let path = render::shorten_path(report.path.as_str(), SLACK_PATH_COLUMNS, home);
    let start = strings::cat5(
        "    \u{25e6} `",
        code(branch.as_str()).as_str(),
        "` \u{2014} `",
        code(path.as_str()).as_str(),
        "`",
    );
    let mut told = match render::quiet_word(report.activity()) {
        Some(word) => if has_remark {
            start
        } else {
            strings::cat3(start.as_str(), " \u{2014} ", word)
        },
        None => {
            let clauses = esc_all(&render::checkout_clauses(report, REF_UNLIMITED));
            strings::cat3(
                start.as_str(),
                " \u{2014} ",
                strings::join(&clauses, " \u{2014} ").as_str(),
            )
        },
    };
    told.append("\n");
    told
}

pub open spec fn remark_text(remark: Option<(Text, bool)>) -> Text {
    match remark {
        Some(remark) => sub_text(marked_text(remark.1, remark.0)),
        None => Seq::empty(),
    }
}

pub open spec fn problems_text(problems: Seq<Text>) -> Text
    decreases problems.len(),
{
    if problems.len() == 0 {
        Seq::empty()
    } else {
        problems_text(problems.drop_last()) + sub_text(marked_text(true, problems.last()))
    }
}

pub open spec fn credit_text(credit: Option<(Text, Text)>) -> Text {
    match credit {
        Some(credit) => sub_text(credit.0 + ": "@ + escaped(credit.1)),
        None => Seq::empty(),
    }
}

pub open spec fn sentence_text(sentence: Option<Text>) -> Text {
    match sentence {
        Some(sentence) => sub_text(escaped(sentence)),
        None => Seq::empty(),
    }
}

#[verifier::opaque]
pub open spec fn checkout_text(
    checkout: model::CheckoutView,
    config: config::ConfigView,
    with_date: bool,
    list: bool,
) -> Text {
    let report = checkout.report;
    headline_text(report, config.home) + remark_text(
        render::head_remark(report.head, REF_UNLIMITED as nat),
    ) + problems_text(report.problems) + credit_text(render::credited(checkout)) + sentence_text(
        render::unpushed_text(report.unpushed),
    ) + sentence_text(render::dirty_text(report.dirty)) + if list {
        commit_list_text(report.commits, config.max_commits as nat, with_date)
    } else {
        Seq::empty()
    }
}

fn problem_lines(problems: &Vec<String>) -> (out: String)
    ensures
        out@ == problems_text(strings::views(problems@)),
{
    broadcast use strings::group_lists;

    let ghost all = strings::views(problems@);
    let mut out = String::new();
    for i in 0..problems.len()
        invariant
            all == strings::views(problems@),
            out@ == problems_text(all.take(i as int)),
    {
        broadcast use strings::group_lists;

        assert(all.take(i as int).push(all[i as int]) == all.take(i + 1));
        assert(all[i as int] == problems@[i as int]@);
        out.append(sub_line(marked(true, problems[i].as_str()).as_str()).as_str());
    }
    out
}

fn sentence_line(sentence: &Option<String>) -> (out: String)
    ensures
        out@ == sentence_text(strings::view_of(*sentence)),
{
    match sentence {
        Some(sentence) => sub_line(esc(sentence.as_str()).as_str()),
        None => String::new(),
    }
}

fn checkout_lines(checkout: &CheckoutDigest, config: &Config, with_date: bool, list: bool) -> (out:
    String)
    ensures
        out@ == checkout_text(checkout@, config@, with_date, list),
{
    reveal(checkout_text);
    let report = &checkout.report;
    let remark = render::head_note(&report.head, REF_UNLIMITED);
    let mut out = headline(report, &config.home, remark.is_some());
    let remarked = match &remark {
        Some((note, loud)) => sub_line(marked(*loud, note.as_str()).as_str()),
        None => String::new(),
    };
    out.append(remarked.as_str());
    out.append(problem_lines(&report.problems).as_str());
    let credit = match render::attribution(checkout) {
        Some((label, who)) => sub_line(
            strings::cat3(label, ": ", esc(who.as_str()).as_str()).as_str(),
        ),
        None => String::new(),
    };
    out.append(credit.as_str());
    out.append(sentence_line(&render::unpushed_sentence(&report.unpushed)).as_str());
    out.append(sentence_line(&render::dirty_sentence(&report.dirty)).as_str());
    let listed = if list {
        commit_lines(report, config.max_commits, with_date)
    } else {
        String::new()
    };
    out.append(listed.as_str());
    out
}

pub open spec fn checkouts_text(
    checkouts: Seq<model::CheckoutView>,
    config: config::ConfigView,
    with_date: bool,
    list: bool,
) -> Text
    decreases checkouts.len(),
{
    if checkouts.len() == 0 {
        Seq::empty()
    } else {
        checkouts_text(checkouts.drop_last(), config, with_date, list) + checkout_text(
            checkouts.last(),
            config,
            with_date,
            list,
        )
    }
}

/// The line a repository begins with. How many days were active is only worth
/// saying where the commits are not listed.
pub open spec fn repo_head_text(repo: model::RepoView, list: bool) -> Text {
    let start = "\u{2022} *"@ + escaped(repo.name) + "* \u{2014} "@ + escaped(
        render::stats_text(repo.commits, repo.churn),
    );
    if !list && repo.active_days > 0 {
        start + " \u{2014} over "@ + render::counted(
            repo.active_days as nat,
            "active day"@,
            "active days"@,
        ) + "\n"@
    } else {
        start + "\n"@
    }
}

#[verifier::opaque]
pub open spec fn repo_text(
    repo: model::RepoView,
    config: config::ConfigView,
    with_date: bool,
    list: bool,
) -> Text {
    repo_head_text(repo, list) + checkouts_text(
        render::checkouts_sorted(repo.checkouts),
        config,
        with_date,
        list,
    )
}

fn repo_head(repo: &RepoDigest, list: bool) -> (out: String)
    ensures
        out@ == repo_head_text(repo@, list),
{
    let start = strings::cat4(
        "\u{2022} *",
        esc(repo.name.as_str()).as_str(),
        "* \u{2014} ",
        esc(render::stats(repo.commits, repo.churn).as_str()).as_str(),
    );
    if !list && repo.active_days > 0 {
        strings::cat4(
            start.as_str(),
            " \u{2014} over ",
            render::quantity(repo.active_days, "active day", "active days").as_str(),
            "\n",
        )
    } else {
        strings::cat2(start.as_str(), "\n")
    }
}

fn checkout_lists(
    checkouts: &Vec<&CheckoutDigest>,
    config: &Config,
    with_date: bool,
    list: bool,
) -> (out: String)
    ensures
        out@ == checkouts_text(strings::views(checkouts@), config@, with_date, list),
{
    broadcast use strings::group_lists;

    let ghost all = strings::views(checkouts@);
    let mut out = String::new();
    for i in 0..checkouts.len()
        invariant
            all == strings::views(checkouts@),
            out@ == checkouts_text(all.take(i as int), config@, with_date, list),
    {
        broadcast use strings::group_lists;

        assert(all.take(i as int).push(all[i as int]) == all.take(i + 1));
        assert(all[i as int] == checkouts@[i as int]@);
        out.append(checkout_lines(checkouts[i], config, with_date, list).as_str());
    }
    assert(all.take(all.len() as int) =~= all);
    out
}

fn repo_lines(repo: &RepoDigest, config: &Config, with_date: bool, list: bool) -> (out: String)
    ensures
        out@ == repo_text(repo@, config@, with_date, list),
{
    reveal(repo_text);
    let mut out = repo_head(repo, list);
    let checkouts = render::sorted_checkouts(repo);
    out.append(checkout_lists(&checkouts, config, with_date, list).as_str());
    out
}

pub open spec fn repos_text(
    repos: Seq<model::RepoView>,
    config: config::ConfigView,
    with_date: bool,
    list: bool,
) -> Text
    decreases repos.len(),
{
    if repos.len() == 0 {
        Seq::empty()
    } else {
        repos_text(repos.drop_last(), config, with_date, list) + repo_text(
            repos.last(),
            config,
            with_date,
            list,
        )
    }
}

fn repo_lists(
    repos: &Vec<&RepoDigest>,
    config: &Config,
    with_date: bool,
    list: bool,
) -> (out: String)
    ensures
        out@ == repos_text(strings::views(repos@), config@, with_date, list),
{
    broadcast use strings::group_lists;

    let ghost all = strings::views(repos@);
    let mut out = String::new();
    for i in 0..repos.len()
        invariant
            all == strings::views(repos@),
            out@ == repos_text(all.take(i as int), config@, with_date, list),
    {
        broadcast use strings::group_lists;

        assert(all.take(i as int).push(all[i as int]) == all.take(i + 1));
        assert(all[i as int] == repos@[i as int]@);
        out.append(repo_lines(repos[i], config, with_date, list).as_str());
    }
    assert(all.take(all.len() as int) =~= all);
    out
}

// ---------------------------------------------------------------------------
// The digest
// ---------------------------------------------------------------------------

/// The escaped names of repositories, in order.
pub open spec fn names_of(repos: Seq<model::RepoView>) -> Seq<Text> {
    all_escaped(render::text::names_of(repos))
}

/// A list of quiet repository names, and nothing where there are none.
pub open spec fn quiet_text(repos: Seq<model::RepoView>) -> Text {
    if repos.len() == 0 {
        Seq::empty()
    } else {
        "\nQuiet: "@ + strings::joined(names_of(repos), ", "@) + ".\n"@
    }
}

fn quiet_line(repos: &Vec<&RepoDigest>) -> (out: String)
    ensures
        out@ == quiet_text(strings::views(repos@)),
{
    assert(strings::views(repos@).len() == repos@.len());
    if repos.len() == 0 {
        return String::new();
    }
    let names = esc_all(&render::text::repo_names(repos));
    strings::cat3("\nQuiet: ", strings::join(&names, ", ").as_str(), ".\n")
}

pub open spec fn heading_text(section: render::SectionView) -> Text {
    match section.heading {
        None => Seq::empty(),
        Some(heading) => "\n*"@ + escaped(heading) + "*"@ + (match section.stats {
            Some(stats) => " \u{2014} "@ + escaped(stats),
            None => ""@,
        }) + "\n"@,
    }
}

#[verifier::opaque]
pub open spec fn section_text(
    section: render::SectionView,
    config: config::ConfigView,
    with_date: bool,
    list: bool,
) -> Text {
    heading_text(section) + repos_text(
        model::busy_among(section.repos),
        config,
        with_date,
        list,
    ) + if section.heading is Some {
        quiet_text(model::quiet_among(section.repos))
    } else {
        Seq::empty()
    }
}

pub open spec fn all_sections_text(
    sections: Seq<render::SectionView>,
    config: config::ConfigView,
    with_date: bool,
    list: bool,
) -> Text
    decreases sections.len(),
{
    if sections.len() == 0 {
        Seq::empty()
    } else {
        all_sections_text(sections.drop_last(), config, with_date, list) + section_text(
            sections.last(),
            config,
            with_date,
            list,
        )
    }
}

fn section_block(section: &Section, config: &Config, with_date: bool, list: bool) -> (out: String)
    ensures
        out@ == section_text(section@, config@, with_date, list),
{
    reveal(section_text);
    let mut out = match &section.heading {
        None => String::new(),
        Some(heading) => {
            let stats = match &section.stats {
                Some(stats) => strings::cat2(" \u{2014} ", esc(stats.as_str()).as_str()),
                None => "".to_string(),
            };
            strings::cat5(
                "\n*",
                esc(heading.as_str()).as_str(),
                "*",
                stats.as_str(),
                "\n",
            )
        },
    };
    let busy = model::busy_of(&section.repos);
    out.append(repo_lists(&busy, config, with_date, list).as_str());
    let quiet = if section.heading.is_some() {
        quiet_line(&model::quiet_of(&section.repos))
    } else {
        String::new()
    };
    out.append(quiet.as_str());
    out
}

fn section_blocks(
    sections: &Vec<Section>,
    config: &Config,
    with_date: bool,
    list: bool,
) -> (out: String)
    ensures
        out@ == all_sections_text(strings::views(sections@), config@, with_date, list),
{
    broadcast use strings::group_lists;

    let ghost all = strings::views(sections@);
    let mut out = String::new();
    for i in 0..sections.len()
        invariant
            all == strings::views(sections@),
            out@ == all_sections_text(all.take(i as int), config@, with_date, list),
    {
        broadcast use strings::group_lists;

        assert(all.take(i as int).push(all[i as int]) == all.take(i + 1));
        assert(all[i as int] == sections@[i as int]@);
        out.append(section_block(&sections[i], config, with_date, list).as_str());
    }
    assert(all.take(all.len() as int) =~= all);
    out
}

/// What came out of the window.
pub open spec fn body_text(
    digest: model::DigestView,
    config: config::ConfigView,
    sections: Seq<render::SectionView>,
) -> Text {
    let total = render::section_total(sections);
    if total == 0 {
        "No repositories were found in this session.\n"@
    } else if !render::any_busy(sections) {
        "Nothing landed in this window, across "@ + render::counted(
            total as nat,
            "repository"@,
            "repositories"@,
        ) + ".\n"@
    } else {
        escaped(
            render::stats_text(
                model::commit_total(digest.repos),
                model::churn_total(digest.repos),
            ),
        ) + " across "@ + render::counted(digest.repos.len(), "repository"@, "repositories"@)
            + ".\n\n"@ + all_sections_text(
            sections,
            config,
            render::needs_dates(digest),
            !(digest.window.source is Rollup),
        )
    }
}

/// The quiet repositories, where no section has named its own.
pub open spec fn closing_text(sections: Seq<render::SectionView>) -> Text {
    if render::no_headings(sections) {
        quiet_text(render::all_quiet(sections))
    } else {
        Seq::empty()
    }
}

pub open spec fn note_list_text(notes: Seq<Note<Text>>) -> Text
    decreases notes.len(),
{
    if notes.len() == 0 {
        Seq::empty()
    } else {
        note_list_text(notes.drop_last()) + ("\u{2022} "@ + marked_text(
            notes.last().severity != Severity::Info,
            notes.last().message,
        ) + "\n"@)
    }
}

pub open spec fn notes_text(notes: Seq<Note<Text>>) -> Text {
    if notes.len() == 0 {
        Seq::empty()
    } else {
        "\n"@ + note_list_text(notes)
    }
}

/// The whole digest in mrkdwn.
pub open spec fn digest_text(
    digest: model::DigestView,
    config: config::ConfigView,
    grouping: Option<by_agent::GroupingView>,
) -> Text {
    let sections = render::sections_of(digest, grouping);
    header_text(digest, grouping) + body_text(digest, config, sections) + closing_text(sections)
        + notes_text(digest.notes)
}

fn body(digest: &Digest, config: &Config, sections: &Vec<Section>) -> (out: String)
    ensures
        out@ == body_text(digest@, config@, strings::views(sections@)),
{
    let total = render::total_in(sections);
    if total == 0 {
        return "No repositories were found in this session.\n".to_string();
    }
    if !render::busy_anywhere(sections) {
        return strings::cat3(
            "Nothing landed in this window, across ",
            render::quantity(total, "repository", "repositories").as_str(),
            ".\n",
        );
    }
    assert(digest@.repos.len() == digest.repos@.len());
    let stats = esc(render::stats(digest.total_commits(), digest.total_churn()).as_str());
    let across = render::quantity(digest.repos.len(), "repository", "repositories");
    let mut out = strings::cat4(stats.as_str(), " across ", across.as_str(), ".\n\n");
    let with_date = render::dates_needed(digest);
    let list = render::lists_commits(&digest.window);
    out.append(section_blocks(sections, config, with_date, list).as_str());
    out
}

fn notes(list: &Vec<Note>) -> (out: String)
    ensures
        out@ == notes_text(strings::views(list@)),
{
    broadcast use strings::group_lists;

    let ghost all = strings::views(list@);
    if list.len() == 0 {
        return String::new();
    }
    let mut items = String::new();
    for i in 0..list.len()
        invariant
            all == strings::views(list@),
            items@ == note_list_text(all.take(i as int)),
    {
        broadcast use strings::group_lists;

        assert(all.take(i as int).push(all[i as int]) == all.take(i + 1));
        assert(all[i as int] == list@[i as int]@);
        let loud = list[i].severity != Severity::Info;
        let shown = strings::cat3(
            "\u{2022} ",
            marked(loud, list[i].message.as_str()).as_str(),
            "\n",
        );
        items.append(shown.as_str());
    }
    assert(all.take(all.len() as int) =~= all);
    strings::cat2("\n", items.as_str())
}

/// The digest as Slack mrkdwn.
pub fn slack(digest: &Digest, config: &Config, grouping: Option<&Grouping>) -> (out: String)
    ensures
        out@ == digest_text(digest@, config@, strings::view_of(grouping)),
{
    let mut out = header(digest, grouping);
    let sections = render::sections(digest, grouping);
    out.append(body(digest, config, &sections).as_str());
    let closing = if render::without_headings(&sections) {
        quiet_line(&render::quiet_in(&sections))
    } else {
        String::new()
    };
    out.append(closing.as_str());
    out.append(notes(&digest.notes).as_str());
    out
}

// ---------------------------------------------------------------------------
// The comparison
// ---------------------------------------------------------------------------

pub open spec fn movement_text(pair: (Text, Movement), home: Option<Text>) -> Text {
    let sentence = if pair.1.calls_for_action() {
        "*"@ + escaped(pair.1.words()) + "*"@
    } else {
        escaped(pair.1.words())
    };
    "    \u{25e6} `"@ + span(
        render::short_path(render::from_home(pair.0, home), SLACK_PATH_COLUMNS as nat),
    ) + "` \u{2014} "@ + sentence + "\n"@
}

pub open spec fn movements_text(pairs: Seq<(Text, Movement)>, home: Option<Text>) -> Text
    decreases pairs.len(),
{
    if pairs.len() == 0 {
        Seq::empty()
    } else {
        movements_text(pairs.drop_last(), home) + movement_text(pairs.last(), home)
    }
}

/// The repositories that moved, each with the checkouts that did.
pub open spec fn moves_text(repos: Seq<model::RepoComparisonView>, home: Option<Text>) -> Text
    decreases repos.len(),
{
    if repos.len() == 0 {
        Seq::empty()
    } else {
        let before = moves_text(repos.drop_last(), home);
        let here = markdown::moved(repos.last().checkouts);
        if here.len() == 0 {
            before
        } else {
            before + ("\u{2022} *"@ + escaped(repos.last().name) + "*\n"@ + movements_text(here, home))
        }
    }
}

pub open spec fn comparison_text(comparison: model::ComparisonView, home: Option<Text>) -> Text {
    let start = "*standup* \u{2014} what changed between *"@ + escaped(comparison.before.full())
        + "* and *"@ + escaped(comparison.after.full()) + "*\n\n"@;
    let across = render::counted(comparison.repos.len(), "repository"@, "repositories"@);
    if comparison.repos.len() == 0 {
        start + "Neither digest found a repository, so there is nothing to compare.\n"@
    } else if comparison.quiet() {
        start + "Nothing moved, across "@ + across + ".\n"@
    } else {
        let names = markdown::unmoved(comparison.repos);
        let told = start + render::counted(
            crate::compare::new_total(comparison.repos) as nat,
            "new commit"@,
            "new commits"@,
        ) + " across "@ + across + ".\n\n"@ + moves_text(comparison.repos, home);
        if names.len() == 0 {
            told
        } else {
            told + "\nUnchanged: "@ + strings::joined(all_escaped(names), ", "@) + ".\n"@
        }
    }
}

fn movement_items(pairs: &Vec<&(String, Movement)>, home: &Option<String>) -> (out: String)
    ensures
        out@ == movements_text(strings::views(pairs@), strings::view_of(*home)),
{
    broadcast use strings::group_lists;

    let ghost all = strings::views(pairs@);
    let mut out = String::new();
    for i in 0..pairs.len()
        invariant
            all == strings::views(pairs@),
            out@ == movements_text(all.take(i as int), strings::view_of(*home)),
    {
        broadcast use strings::group_lists;

        assert(all.take(i as int).push(all[i as int]) == all.take(i + 1));
        let (path, movement) = pairs[i];
        assert(all[i as int] == (path@, *movement));
        let words = esc(movement.sentence().as_str());
        let sentence = if movement.loud() {
            strings::cat3("*", words.as_str(), "*")
        } else {
            words
        };
        let shown = render::shorten_path(path.as_str(), SLACK_PATH_COLUMNS, home);
        out.append(
            strings::cat5(
                "    \u{25e6} `",
                code(shown.as_str()).as_str(),
                "` \u{2014} ",
                sentence.as_str(),
                "\n",
            ).as_str(),
        );
    }
    assert(all.take(all.len() as int) =~= all);
    out
}

fn move_lists(repos: &Vec<RepoComparison>, home: &Option<String>) -> (out: String)
    ensures
        out@ == moves_text(strings::views(repos@), strings::view_of(*home)),
{
    broadcast use strings::group_lists;

    let ghost all = strings::views(repos@);
    let mut out = String::new();
    for i in 0..repos.len()
        invariant
            all == strings::views(repos@),
            out@ == moves_text(all.take(i as int), strings::view_of(*home)),
    {
        broadcast use strings::group_lists;

        assert(all.take(i as int).push(all[i as int]) == all.take(i + 1));
        assert(all[i as int] == repos@[i as int]@);
        let here = markdown::moved_of(&repos[i]);
        assert(strings::views(here@).len() == here@.len());
        if here.len() > 0 {
            let block = strings::cat4(
                "\u{2022} *",
                esc(repos[i].name.as_str()).as_str(),
                "*\n",
                movement_items(&here, home).as_str(),
            );
            out.append(block.as_str());
        }
    }
    assert(all.take(all.len() as int) =~= all);
    out
}

/// A comparison in mrkdwn.
pub fn comparison(found: &Comparison, home: &Option<String>) -> (out: String)
    ensures
        out@ == comparison_text(found@, strings::view_of(*home)),
{
    let start = strings::cat5(
        "*standup* \u{2014} what changed between *",
        esc(found.before.full().as_str()).as_str(),
        "* and *",
        esc(found.after.full().as_str()).as_str(),
        "*\n\n",
    );
    assert(found@.repos.len() == found.repos@.len());
    if found.repos.len() == 0 {
        return strings::cat2(
            start.as_str(),
            "Neither digest found a repository, so there is nothing to compare.\n",
        );
    }
    let across = render::quantity(found.repos.len(), "repository", "repositories");
    if found.is_quiet() {
        return strings::cat4(start.as_str(), "Nothing moved, across ", across.as_str(), ".\n");
    }
    let new = render::quantity(found.total_commits(), "new commit", "new commits");
    let mut told = strings::cat5(start.as_str(), new.as_str(), " across ", across.as_str(), ".\n\n");
    told.append(move_lists(&found.repos, home).as_str());
    let names = markdown::unmoved_of(&found.repos);
    assert(strings::views(names@).len() == names@.len());
    if names.len() == 0 {
        return told;
    }
    strings::cat4(
        told.as_str(),
        "\nUnchanged: ",
        strings::join(&esc_all(&names), ", ").as_str(),
        ".\n",
    )
}

} // verus!
