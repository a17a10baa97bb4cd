//! HTML, for an email.
//!
//! Written for the least capable renderer it will meet, which is an email
//! client: every style is inline, there are no external resources, the layout
//! is by table, and `&`, `<`, `>` and `"` are always escaped.

use vstd::prelude::*;

use crate::by_agent;
use crate::by_agent::Grouping;
use crate::config::Config;
use crate::config;
use crate::model;
use crate::model::{CheckoutDigest, CheckoutReport, Commit, Comparison, Digest, Movement, Note,
    RepoComparison, RepoDigest, Severity, Text, OID_COLUMNS};
use crate::render;
use crate::render::markdown;
use crate::render::{Section, REF_UNLIMITED};
use crate::strings;

verus! {

/// Colours, in hex because a named colour is not reliable across clients.
pub const INK: &'static str = "#1a1a1a";

pub const QUIET: &'static str = "#6a6a6a";

pub const LOUD: &'static str = "#a8331a";

pub const RULE: &'static str = "#e2e2e2";

/// One font stack, inline, on every text element. Email clients do not inherit
/// reliably.
pub const FONT: &'static str =
    "font-family:-apple-system,BlinkMacSystemFont,'Segoe UI',Helvetica,Arial,sans-serif";

pub const MONO: &'static str =
    "font-family:ui-monospace,SFMono-Regular,Menlo,Consolas,monospace";

/// Longer than the terminal's budget: an email is read in a window somebody can
/// widen.
pub const HTML_PATH_COLUMNS: usize = 96;

// ---------------------------------------------------------------------------
// Escaping
// ---------------------------------------------------------------------------

/// A character as it goes out.
pub open spec fn entity(c: char) -> Text {
    if c == '&' {
        "&amp;"@
    } else if c == '<' {
        "&lt;"@
    } else if c == '>' {
        "&gt;"@
    } else if c == '"' {
        "&quot;"@
    } else {
        seq![c]
    }
}

/// The text with the four characters that must never reach the parser as
/// themselves made entities.
pub open spec fn escaped(s: Text) -> Text
    decreases s.len(),
{
    if s.len() == 0 {
        Seq::empty()
    } else {
        escaped(s.drop_last()) + entity(s.last())
    }
}

pub fn esc(s: &str) -> (out: String)
    ensures
        out@ == escaped(s@),
{
    let mut out = String::new();
    for ch in it: s.chars()
        invariant
            it.seq() == s@,
            out@ == escaped(s@.take(it.index() as int)),
    {
        assert(s@.take(it.index() + 1).drop_last() =~= s@.take(it.index() as int));
        let ghost before = out@;
        if ch == '&' {
            out.append("&amp;");
        } else if ch == '<' {
            out.append("&lt;");
        } else if ch == '>' {
            out.append("&gt;");
        } else if ch == '"' {
            out.append("&quot;");
        } else {
            out.push(ch);
            assert(before.push(ch) =~= before + seq![ch]);
        }
    }
    assert(s@.take(s@.len() as int) =~= s@);
    out
}

/// Each text escaped, in order.
pub open spec fn all_escaped(list: Seq<Text>) -> Seq<Text> {
    Seq::new(list.len(), |i: int| escaped(list[i]))
}

fn esc_all(list: &Vec<String>) -> (out: Vec<String>)
    ensures
        strings::views(out@) == all_escaped(strings::views(list@)),
{
    broadcast use strings::group_lists;

    let ghost all = all_escaped(strings::views(list@));
    let mut out: Vec<String> = Vec::new();
    for i in 0..list.len()
        invariant
            all == all_escaped(strings::views(list@)),
            strings::views(out@) == all.take(i as int),
    {
        broadcast use strings::group_lists;

        let shown = esc(list[i].as_str());
        assert(strings::views(list@)[i as int] == list@[i as int]@);
        assert(all[i as int] == shown@);
        out.push(shown);
    }
    assert(all.take(all.len() as int) =~= all);
    out
}

/// The escaped form of a text holds none of the characters that end a text or
/// an attribute: a branch called `feat/<x>` cannot become a tag.
pub proof fn law_escaped_text_stays_text(s: Text)
    ensures
        !escaped(s).contains('<'),
        !escaped(s).contains('>'),
        !escaped(s).contains('"'),
    decreases s.len(),
{
    if s.len() > 0 {
        law_escaped_text_stays_text(s.drop_last());
        reveal_strlit("&amp;");
        reveal_strlit("&lt;");
        reveal_strlit("&gt;");
        reveal_strlit("&quot;");
        let before = escaped(s.drop_last());
        let last = entity(s.last());
        assert(!last.contains('<') && !last.contains('>') && !last.contains('"'));
        assert forall|i: int| 0 <= i < escaped(s).len() implies escaped(s)[i] != '<' && escaped(
            s,
        )[i] != '>' && escaped(s)[i] != '"' by {
            if i < before.len() {
                assert(before.contains(before[i]));
            } else {
                assert(last.contains(last[i - before.len()]));
            }
        }
    }
}

// ---------------------------------------------------------------------------
// Elements
// ---------------------------------------------------------------------------

/// The opening tag of a styled element.
pub open spec fn opening(element: Text, font: Text, size: Text, colour: Text, rest: Text) -> Text {
    "<"@ + element + " style=\""@ + font + ";"@ + size + ";color:"@ + colour + ";"@ + rest
        + "\">"@
}

fn open_tag(element: &str, font: &str, size: &str, colour: &str, rest: &str) -> (out: String)
    ensures
        out@ == opening(element@, font@, size@, colour@, rest@),
{
    let mut out = strings::cat5("<", element, " style=\"", font, ";");
    out = strings::cat5(out.as_str(), size, ";color:", colour, ";");
    strings::cat3(out.as_str(), rest, "\">")
}

/// A styled paragraph.
pub open spec fn para(font: Text, size: Text, colour: Text, rest: Text, inner: Text) -> Text {
    opening("p"@, font, size, colour, rest) + inner + "</p>\n"@
}

fn p(font: &str, size: &str, colour: &str, rest: &str, inner: &str) -> (out: String)
    ensures
        out@ == para(font@, size@, colour@, rest@, inner@),
{
    strings::cat3(open_tag("p", font, size, colour, rest).as_str(), inner, "</p>\n")
}

pub open spec fn paragraph_text(s: Text) -> Text {
    para(FONT@, "font-size:14px"@, INK@, "margin:0"@, escaped(s))
}

fn paragraph(s: &str) -> (out: String)
    ensures
        out@ == paragraph_text(s@),
{
    p(FONT, "font-size:14px", INK, "margin:0", esc(s).as_str())
}

pub open spec fn detail_text(loud: bool, s: Text) -> Text {
    if loud {
        para(
            FONT@,
            "font-size:13px"@,
            LOUD@,
            "margin:0 0 2px 16px"@,
            "problem: "@ + escaped(s),
        )
    } else {
        para(FONT@, "font-size:13px"@, INK@, "margin:0 0 2px 16px"@, escaped(s))
    }
}

fn detail(loud: bool, s: &str) -> (out: String)
    ensures
        out@ == detail_text(loud, s@),
{
    if loud {
        p(
            FONT,
            "font-size:13px",
            LOUD,
            "margin:0 0 2px 16px",
            strings::cat2("problem: ", esc(s).as_str()).as_str(),
        )
    } else {
        p(FONT, "font-size:13px", INK, "margin:0 0 2px 16px", esc(s).as_str())
    }
}

/// The start of a complete document, with the charset declared.
pub open spec fn open_text(title: Text) -> Text {
    "<!doctype html>\n<html lang=\"en\">\n<head>\n<meta charset=\"utf-8\">\n<meta name=\"viewport\" content=\"width=device-width,initial-scale=1\">\n<title>"@
        + escaped(title)
        + "</title>\n</head>\n<body style=\"margin:0;padding:20px;background:#ffffff\">\n<div style=\"max-width:720px;margin:0 auto\">\n"@
}

fn open(title: &str) -> (out: String)
    ensures
        out@ == open_text(title@),
{
    strings::cat3(
        "<!doctype html>\n<html lang=\"en\">\n<head>\n<meta charset=\"utf-8\">\n<meta name=\"viewport\" content=\"width=device-width,initial-scale=1\">\n<title>",
        esc(title).as_str(),
        "</title>\n</head>\n<body style=\"margin:0;padding:20px;background:#ffffff\">\n<div style=\"max-width:720px;margin:0 auto\">\n",
    )
}

pub open spec fn close_text() -> Text {
    "</div>\n</body>\n</html>\n"@
}

/// A first-level heading.
pub open spec fn title_text(s: Text) -> Text {
    opening("h1"@, FONT@, "font-size:18px;font-weight:600"@, INK@, "margin:0 0 4px"@) + s
        + "</h1>\n"@
}

fn title(s: &str) -> (out: String)
    ensures
        out@ == title_text(s@),
{
    strings::cat3(
        open_tag("h1", FONT, "font-size:18px;font-weight:600", INK, "margin:0 0 4px").as_str(),
        s,
        "</h1>\n",
    )
}

/// A row of two cells.
pub open spec fn row_text(
    left_rest: Text,
    left: Text,
    colour: Text,
    right_rest: Text,
    right: Text,
) -> Text {
    "<tr>"@ + opening("td"@, MONO@, "font-size:12px"@, QUIET@, left_rest) + left + "</td>"@
        + opening("td"@, FONT@, "font-size:13px"@, colour, right_rest) + right + "</td></tr>\n"@
}

fn row(left_rest: &str, left: &str, colour: &str, right_rest: &str, right: &str) -> (out: String)
    ensures
        out@ == row_text(left_rest@, left@, colour@, right_rest@, right@),
{
    let start = strings::cat4(
        "<tr>",
        open_tag("td", MONO, "font-size:12px", QUIET, left_rest).as_str(),
        left,
        "</td>",
    );
    strings::cat4(
        start.as_str(),
        open_tag("td", FONT, "font-size:13px", colour, right_rest).as_str(),
        right,
        "</td></tr>\n",
    )
}

// ---------------------------------------------------------------------------
// One repository
// ---------------------------------------------------------------------------

pub open spec fn commit_text(commit: model::CommitView, with_date: bool) -> Text {
    row_text(
        "padding:1px 10px 1px 0;vertical-align:top;white-space:nowrap"@,
        escaped(render::instant_text(commit.committed, with_date)) + " "@ + escaped(
            strings::leading(commit.oid, OID_COLUMNS as nat),
        ),
        INK@,
        "padding:1px 0;vertical-align:top"@,
        escaped(strings::trimmed(commit.subject)),
    )
}

pub open spec fn commits_text(commits: Seq<model::CommitView>, with_date: bool) -> Text
    decreases commits.len(),
{
    if commits.len() == 0 {
        Seq::empty()
    } else {
        commits_text(commits.drop_last(), with_date) + commit_text(commits.last(), with_date)
    }
}

pub open spec fn remainder_text(held_back: nat) -> Text {
    if held_back == 0 {
        Seq::empty()
    } else {
        para(
            FONT@,
            "font-size:12px"@,
            QUIET@,
            "margin:0 0 12px 16px"@,
            "\u{2026} "@ + render::counted(held_back, "more commit"@, "more commits"@)
                + " not listed"@,
        )
    }
}

/// The commits of a checkout as a table, and how many are held back.
pub open spec fn commit_list_text(
    commits: Seq<model::CommitView>,
    max: nat,
    with_date: bool,
) -> Text {
    let shown = render::shown_commits(commits, max);
    let table = if shown.len() == 0 {
        ""@
    } else {
        "<table role=\"presentation\" cellpadding=\"0\" cellspacing=\"0\" border=\"0\" style=\"width:100%;margin:4px 0 12px 16px\">\n"@
            + commits_text(shown, with_date) + "</table>\n"@
    };
    table + remainder_text(render::held_back(commits, max))
}

fn commit_row(commit: &Commit, with_date: bool) -> (out: String)
    ensures
        out@ == commit_text(commit@, with_date),
{
    let when = esc(render::commit_time(&commit.committed, with_date).as_str());
    let oid = esc(commit.short_oid().as_str());
    row(
        "padding:1px 10px 1px 0;vertical-align:top;white-space:nowrap",
        strings::cat3(when.as_str(), " ", oid.as_str()).as_str(),
        INK,
        "padding:1px 0;vertical-align:top",
        esc(strings::trim(commit.subject.as_str()).as_str()).as_str(),
    )
}

fn commit_rows(report: &CheckoutReport, max: usize, with_date: bool) -> (out: String)
    ensures
        out@ == commit_list_text(report@.commits, max as nat, with_date),
{
    broadcast use strings::group_lists;

    let (shown, held_back) = render::listed_commits(report, max);
    let ghost all = strings::views(shown@);
    let mut rows = String::new();
    for i in 0..shown.len()
        invariant
            all == strings::views(shown@),
            rows@ == commits_text(all.take(i as int), with_date),
    {
        broadcast use strings::group_lists;

        assert(all.take(i as int).push(all[i as int]) == all.take(i + 1));
        assert(all[i as int] == shown@[i as int]@);
        rows.append(commit_row(shown[i], with_date).as_str());
    }
    assert(all.take(all.len() as int) =~= all);
    let mut out = if shown.len() == 0 {
        "".to_string()
    } else {
        strings::cat3(
            "<table role=\"presentation\" cellpadding=\"0\" cellspacing=\"0\" border=\"0\" style=\"width:100%;margin:4px 0 12px 16px\">\n",
            rows.as_str(),
            "</table>\n",
        )
    };
    let rest = if held_back > 0 {
        let counted = render::quantity(held_back, "more commit", "more commits");
        p(
            FONT,
            "font-size:12px",
            QUIET,
            "margin:0 0 12px 16px",
            strings::cat3("\u{2026} ", counted.as_str(), " not listed").as_str(),
        )
    } else {
        String::new()
    };
    out.append(rest.as_str());
    out
}

/// Where a checkout is.
pub open spec fn place_text(report: model::ReportView, home: Option<Text>) -> Text {
    para(
        MONO@,
        "font-size:12px"@,
        INK@,
        "margin:0 0 2px"@,
        escaped(render::head_text(report.head)) + " <span style=\"color:"@ + QUIET@ + "\">"@
            + escaped(
            render::short_path(render::from_home(report.path, home), HTML_PATH_COLUMNS as nat),
        ) + "</span>"@,
    )
}

fn place(report: &CheckoutReport, home: &Option<String>) -> (out: String)
    ensures
        out@ == place_text(report@, strings::view_of(*home)),
{
    let branch = esc(render::head_label(&report.head).as_str());
    let path = esc(render::shorten_path(report.path.as_str(), HTML_PATH_COLUMNS, home).as_str());
    let start = strings::cat4(branch.as_str(), " <span style=\"color:", QUIET, "\">");
    p(
        MONO,
        "font-size:12px",
        INK,
        "margin:0 0 2px",
        strings::cat3(start.as_str(), path.as_str(), "</span>").as_str(),
    )
}

/// What a checkout did, or that it is quiet.
pub open spec fn deed_text(report: model::ReportView) -> Text {
    if report.activity() == model::Activity::Quiet {
        if render::head_remark(report.head, REF_UNLIMITED as nat) is None {
            detail_text(false, "quiet"@)
        } else {
            Seq::empty()
        }
    } else {
        detail_text(
            false,
            strings::joined(render::clauses(report, REF_UNLIMITED as nat), ", "@),
        )
    }
}

pub open spec fn remark_text(remark: Option<(Text, bool)>) -> Text {
    match remark {
        Some(remark) => detail_text(remark.1, remark.0),
        None => Seq::empty(),
    }
}

pub open spec fn problems_text(problems: Seq<Text>) -> Text
    decreases problems.len(),
{
    if problems.len() == 0 {
        Seq::empty()
    } else {
        problems_text(problems.drop_last()) + detail_text(true, problems.last())
    }
}

pub open spec fn credit_text(credit: Option<(Text, Text)>) -> Text {
    match credit {
        Some(credit) => detail_text(false, credit.0 + ": "@ + credit.1),
        None => Seq::empty(),
    }
}

pub open spec fn sentence_text(sentence: Option<Text>) -> Text {
    match sentence {
        Some(sentence) => detail_text(false, sentence),
        None => Seq::empty(),
    }
}

#[verifier::opaque]
pub open spec fn checkout_text(
    checkout: model::CheckoutView,
    config: config::ConfigView,
    with_date: bool,
    list: bool,
) -> Text {
    let report = checkout.report;
    place_text(report, config.home) + deed_text(report) + remark_text(
        render::head_remark(report.head, REF_UNLIMITED as nat),
    ) + problems_text(report.problems) + credit_text(render::credited(checkout)) + sentence_text(
        render::unpushed_text(report.unpushed),
    ) + sentence_text(render::dirty_text(report.dirty)) + if list {
        commit_list_text(report.commits, config.max_commits as nat, with_date)
    } else {
        Seq::empty()
    }
}

fn deed(report: &CheckoutReport, has_remark: bool) -> (out: String)
    requires
        has_remark == (render::head_remark(report@.head, REF_UNLIMITED as nat) is Some),
    ensures
        out@ == deed_text(report@),
{
    match render::quiet_word(report.activity()) {
        Some(word) => if has_remark {
            String::new()
        } else {
            detail(false, word)
        },
        None => detail(
            false,
            strings::join(&render::checkout_clauses(report, REF_UNLIMITED), ", ").as_str(),
        ),
    }
}

fn problem_details(problems: &Vec<String>) -> (out: String)
    ensures
        out@ == problems_text(strings::views(problems@)),
{
    broadcast use strings::group_lists;

    let ghost all = strings::views(problems@);
    let mut out = String::new();
    for i in 0..problems.len()
        invariant
            all == strings::views(problems@),
            out@ == problems_text(all.take(i as int)),
    {
        broadcast use strings::group_lists;

        assert(all.take(i as int).push(all[i as int]) == all.take(i + 1));
        assert(all[i as int] == problems@[i as int]@);
        out.append(detail(true, problems[i].as_str()).as_str());
    }
    out
}

fn sentence_detail(sentence: &Option<String>) -> (out: String)
    ensures
        out@ == sentence_text(strings::view_of(*sentence)),
{
    match sentence {
        Some(sentence) => detail(false, sentence.as_str()),
        None => String::new(),
    }
}

fn checkout_block(checkout: &CheckoutDigest, config: &Config, with_date: bool, list: bool) -> (out:
    String)
    ensures
        out@ == checkout_text(checkout@, config@, with_date, list),
{
    reveal(checkout_text);
    let report = &checkout.report;
    let remark = render::head_note(&report.head, REF_UNLIMITED);
    let mut out = place(report, &config.home);
    out.append(deed(report, remark.is_some()).as_str());
    let remarked = match &remark {
        Some((note, loud)) => detail(*loud, note.as_str()),
        None => String::new(),
    };
    out.append(remarked.as_str());
    out.append(problem_details(&report.problems).as_str());
    let credit = match render::attribution(checkout) {
        Some((label, who)) => detail(false, strings::cat3(label, ": ", who.as_str()).as_str()),
        None => String::new(),
    };
    out.append(credit.as_str());
    out.append(sentence_detail(&render::unpushed_sentence(&report.unpushed)).as_str());
    out.append(sentence_detail(&render::dirty_sentence(&report.dirty)).as_str());
    let listed = if list {
        commit_rows(report, config.max_commits, with_date)
    } else {
        String::new()
    };
    out.append(listed.as_str());
    out
}

pub open spec fn checkouts_text(
    checkouts: Seq<model::CheckoutView>,
    config: config::ConfigView,
    with_date: bool,
    list: bool,
) -> Text
    decreases checkouts.len(),
{
    if checkouts.len() == 0 {
        Seq::empty()
    } else {
        checkouts_text(checkouts.drop_last(), config, with_date, list) + checkout_text(
            checkouts.last(),
            config,
            with_date,
            list,
        )
    }
}

/// The heading of a repository. How many days were active is only worth saying
/// where the commits are not listed.
pub open spec fn repo_head_text(repo: model::RepoView, list: bool) -> Text {
    let start = escaped(repo.name) + " \u{2014} "@ + escaped(
        render::stats_text(repo.commits, repo.churn),
    );
    let heading = if !list && repo.active_days > 0 {
        start + " \u{2014} over "@ + render::counted(
            repo.active_days as nat,
            "active day"@,
            "active days"@,
        )
    } else {
        start
    };
    para(
        FONT@,
        "font-size:14px;font-weight:600"@,
        INK@,
        "margin:0 0 6px;padding-top:12px;border-top:1px solid "@ + RULE@,
        heading,
    )
}

#[verifier::opaque]
pub open spec fn repo_text(
    repo: model::RepoView,
    config: config::ConfigView,
    with_date: bool,
    list: bool,
) -> Text {
    repo_head_text(repo, list) + checkouts_text(
        render::checkouts_sorted(repo.checkouts),
        config,
        with_date,
        list,
    )
}

fn repo_head(repo: &RepoDigest, list: bool) -> (out: String)
    ensures
        out@ == repo_head_text(repo@, list),
{
    let start = strings::cat3(
        esc(repo.name.as_str()).as_str(),
        " \u{2014} ",
        esc(render::stats(repo.commits, repo.churn).as_str()).as_str(),
    );
    let heading = if !list && repo.active_days > 0 {
        strings::cat3(
            start.as_str(),
            " \u{2014} over ",
            render::quantity(repo.active_days, "active day", "active days").as_str(),
        )
    } else {
        start
    };
    p(
        FONT,
        "font-size:14px;font-weight:600",
        INK,
        strings::cat2("margin:0 0 6px;padding-top:12px;border-top:1px solid ", RULE).as_str(),
        heading.as_str(),
    )
}

fn checkout_lists(
    checkouts: &Vec<&CheckoutDigest>,
    config: &Config,
    with_date: bool,
    list: bool,
) -> (out: String)
    ensures
        out@ == checkouts_text(strings::views(checkouts@), config@, with_date, list),
{
    broadcast use strings::group_lists;

    let ghost all = strings::views(checkouts@);
    let mut out = String::new();
    for i in 0..checkouts.len()
        invariant
            all == strings::views(checkouts@),
            out@ == checkouts_text(all.take(i as int), config@, with_date, list),
    {
        broadcast use strings::group_lists;

        assert(all.take(i as int).push(all[i as int]) == all.take(i + 1));
        assert(all[i as int] == checkouts@[i as int]@);
        out.append(checkout_block(checkouts[i], config, with_date, list).as_str());
    }
    assert(all.take(all.len() as int) =~= all);
    out
}

fn repo_block(repo: &RepoDigest, config: &Config, with_date: bool, list: bool) -> (out: String)
    ensures
        out@ == repo_text(repo@, config@, with_date, list),
{
    reveal(repo_text);
    let mut out = repo_head(repo, list);
    let checkouts = render::sorted_checkouts(repo);
    out.append(checkout_lists(&checkouts, config, with_date, list).as_str());
    out
}

pub open spec fn repos_text(
    repos: Seq<model::RepoView>,
    config: config::ConfigView,
    with_date: bool,
    list: bool,
) -> Text
    decreases repos.len(),
{
    if repos.len() == 0 {
        Seq::empty()
    } else {
        repos_text(repos.drop_last(), config, with_date, list) + repo_text(
            repos.last(),
            config,
            with_date,
            list,
        )
    }
}

fn repo_lists(
    repos: &Vec<&RepoDigest>,
    config: &Config,
    with_date: bool,
    list: bool,
) -> (out: String)
    ensures
        out@ == repos_text(strings::views(repos@), config@, with_date, list),
{
    broadcast use strings::group_lists;

    let ghost all = strings::views(repos@);
    let mut out = String::new();
    for i in 0..repos.len()
        invariant
            all == strings::views(repos@),
            out@ == repos_text(all.take(i as int), config@, with_date, list),
    {
        broadcast use strings::group_lists;

        assert(all.take(i as int).push(all[i as int]) == all.take(i + 1));
        assert(all[i as int] == repos@[i as int]@);
        out.append(repo_block(repos[i], config, with_date, list).as_str());
    }
    assert(all.take(all.len() as int) =~= all);
    out
}

// ---------------------------------------------------------------------------
// The digest
// ---------------------------------------------------------------------------

pub open spec fn header_text(digest: model::DigestView) -> Text {
    let window = digest.window;
    let start = "since "@ + escaped(window.since.full());
    let head = match window.until {
        Some(until) => start + " until "@ + escaped(until.full()),
        None => start,
    };
    open_text("standup"@) + title_text("standup"@) + para(
        FONT@,
        "font-size:13px"@,
        QUIET@,
        "margin:0 0 2px"@,
        head + " (generated "@ + escaped(render::generated_text(digest)) + ")"@,
    ) + match render::window_text(window) {
        Some(note) => para(
            FONT@,
            "font-size:13px"@,
            QUIET@,
            "margin:0 0 16px"@,
            escaped(note),
        ),
        None => "<div style=\"height:16px\"></div>\n"@,
    }
}

fn header(digest: &Digest) -> (out: String)
    ensures
        out@ == header_text(digest@),
{
    let window = &digest.window;
    let mut head = strings::cat2("since ", esc(window.since.full().as_str()).as_str());
    if let Some(until) = &window.until {
        head = strings::cat3(head.as_str(), " until ", esc(until.full().as_str()).as_str());
    }
    let mut out = open("standup");
    out.append(title("standup").as_str());
    let told = strings::cat4(
        head.as_str(),
        " (generated ",
        esc(render::generated_display(digest).as_str()).as_str(),
        ")",
    );
    out.append(p(FONT, "font-size:13px", QUIET, "margin:0 0 2px", told.as_str()).as_str());
    let noted = match render::window_note(window) {
        Some(note) => p(
            FONT,
            "font-size:13px",
            QUIET,
            "margin:0 0 16px",
            esc(note.as_str()).as_str(),
        ),
        None => "<div style=\"height:16px\"></div>\n".to_string(),
    };
    out.append(noted.as_str());
    out
}

pub open spec fn quiet_text(repos: Seq<model::RepoView>) -> Text {
    let quiet = model::quiet_among(repos);
    if quiet.len() == 0 {
        Seq::empty()
    } else {
        para(
            FONT@,
            "font-size:13px"@,
            QUIET@,
            "margin:16px 0 0"@,
            "Quiet: "@ + strings::joined(all_escaped(render::text::names_of(quiet)), ", "@) + "."@,
        )
    }
}

/// The sentence a grouped digest begins with: what a reader has to know before
/// trusting a number in it.
pub open spec fn caveat_text(grouping: Option<by_agent::GroupingView>) -> Text {
    match grouping {
        Some(grouping) => para(
            FONT@,
            "font-size:13px"@,
            QUIET@,
            "margin:0 0 16px"@,
            escaped(grouping.warning()),
        ),
        None => Seq::empty(),
    }
}

/// What stands above the repositories of a group: its name and its numbers.
pub open spec fn heading_text(section: render::SectionView) -> Text {
    match section.heading {
        None => Seq::empty(),
        Some(heading) => para(
            FONT@,
            "font-size:15px;font-weight:600"@,
            INK@,
            "margin:16px 0 8px"@,
            escaped(heading) + match section.stats {
                Some(stats) => " \u{2014} "@ + escaped(stats),
                None => ""@,
            },
        ),
    }
}

/// The repositories of a section. A group names its own quiet ones: one
/// repository can be busy in one group and quiet in another.
#[verifier::opaque]
pub open spec fn section_text(
    section: render::SectionView,
    config: config::ConfigView,
    with_date: bool,
    list: bool,
) -> Text {
    heading_text(section) + repos_text(
        model::busy_among(section.repos),
        config,
        with_date,
        list,
    ) + if section.heading is Some {
        quiet_text(section.repos)
    } else {
        Seq::empty()
    }
}

pub open spec fn all_sections_text(
    sections: Seq<render::SectionView>,
    config: config::ConfigView,
    with_date: bool,
    list: bool,
) -> Text
    decreases sections.len(),
{
    if sections.len() == 0 {
        Seq::empty()
    } else {
        all_sections_text(sections.drop_last(), config, with_date, list) + section_text(
            sections.last(),
            config,
            with_date,
            list,
        )
    }
}

/// What came out of the window.
pub open spec fn body_text(
    digest: model::DigestView,
    config: config::ConfigView,
    sections: Seq<render::SectionView>,
) -> Text {
    let across = render::counted(digest.repos.len(), "repository"@, "repositories"@);
    if digest.repos.len() == 0 {
        paragraph_text("No repositories were found in this session."@)
    } else if !render::any_busy(sections) {
        paragraph_text("Nothing landed in this window, across "@ + across + "."@)
    } else {
        para(
            FONT@,
            "font-size:15px;font-weight:600"@,
            INK@,
            "margin:0 0 16px"@,
            escaped(
                render::stats_text(
                    model::commit_total(digest.repos),
                    model::churn_total(digest.repos),
                ),
            ) + " across "@ + across,
        ) + all_sections_text(
            sections,
            config,
            render::needs_dates(digest),
            !(digest.window.source is Rollup),
        )
    }
}

/// The quiet repositories, where no group has named its own.
pub open spec fn closing_text(
    digest: model::DigestView,
    sections: Seq<render::SectionView>,
) -> Text {
    if render::no_headings(sections) || !render::any_busy(sections) {
        quiet_text(render::repos_sorted(digest.repos))
    } else {
        Seq::empty()
    }
}

pub open spec fn note_text(note: Note<Text>) -> Text {
    para(
        FONT@,
        "font-size:13px"@,
        if note.severity == Severity::Info {
            QUIET@
        } else {
            LOUD@
        },
        "margin:12px 0 0"@,
        escaped(note.message),
    )
}

pub open spec fn notes_text(notes: Seq<Note<Text>>) -> Text
    decreases notes.len(),
{
    if notes.len() == 0 {
        Seq::empty()
    } else {
        notes_text(notes.drop_last()) + note_text(notes.last())
    }
}

/// The whole document, grouped as the configuration asks.
pub open spec fn digest_text(digest: model::DigestView, config: config::ConfigView) -> Text {
    let grouping = render::grouping_asked(digest, config);
    let sections = render::sections_of(digest, grouping);
    header_text(digest) + caveat_text(grouping) + body_text(digest, config, sections)
        + closing_text(digest, sections) + notes_text(digest.notes) + close_text()
}

fn quiet_line(repos: &Vec<&RepoDigest>) -> (out: String)
    ensures
        out@ == quiet_text(strings::views(repos@)),
{
    let quiet = model::quiet_of(repos);
    assert(strings::views(quiet@).len() == quiet@.len());
    if quiet.len() == 0 {
        return String::new();
    }
    let names = esc_all(&render::text::repo_names(&quiet));
    p(
        FONT,
        "font-size:13px",
        QUIET,
        "margin:16px 0 0",
        strings::cat3("Quiet: ", strings::join(&names, ", ").as_str(), ".").as_str(),
    )
}

fn caveat(grouping: &Option<Grouping>) -> (out: String)
    ensures
        out@ == caveat_text(strings::view_of(*grouping)),
{
    match grouping {
        Some(grouping) => p(
            FONT,
            "font-size:13px",
            QUIET,
            "margin:0 0 16px",
            esc(grouping.caveat().as_str()).as_str(),
        ),
        None => String::new(),
    }
}

fn section_block(section: &Section, config: &Config, with_date: bool, list: bool) -> (out: String)
    ensures
        out@ == section_text(section@, config@, with_date, list),
{
    reveal(section_text);
    let mut out = match &section.heading {
        None => String::new(),
        Some(heading) => {
            let stats = match &section.stats {
                Some(stats) => strings::cat2(" \u{2014} ", esc(stats.as_str()).as_str()),
                None => "".to_string(),
            };
            p(
                FONT,
                "font-size:15px;font-weight:600",
                INK,
                "margin:16px 0 8px",
                strings::cat2(esc(heading.as_str()).as_str(), stats.as_str()).as_str(),
            )
        },
    };
    let busy = model::busy_of(&section.repos);
    out.append(repo_lists(&busy, config, with_date, list).as_str());
    let quiet = if section.heading.is_some() {
        quiet_line(&section.repos)
    } else {
        String::new()
    };
    out.append(quiet.as_str());
    out
}

fn section_blocks(
    sections: &Vec<Section>,
    config: &Config,
    with_date: bool,
    list: bool,
) -> (out: String)
    ensures
        out@ == all_sections_text(strings::views(sections@), config@, with_date, list),
{
    broadcast use strings::group_lists;

    let ghost all = strings::views(sections@);
    let mut out = String::new();
    for i in 0..sections.len()
        invariant
            all == strings::views(sections@),
            out@ == all_sections_text(all.take(i as int), config@, with_date, list),
    {
        broadcast use strings::group_lists;

        assert(all.take(i as int).push(all[i as int]) == all.take(i + 1));
        assert(all[i as int] == sections@[i as int]@);
        out.append(section_block(&sections[i], config, with_date, list).as_str());
    }
    assert(all.take(all.len() as int) =~= all);
    out
}

fn body(digest: &Digest, config: &Config, sections: &Vec<Section>) -> (out: String)
    ensures
        out@ == body_text(digest@, config@, strings::views(sections@)),
{
    assert(digest@.repos.len() == digest.repos@.len());
    if digest.repos.len() == 0 {
        return paragraph("No repositories were found in this session.");
    }
    let across = render::quantity(digest.repos.len(), "repository", "repositories");
    if !render::busy_anywhere(sections) {
        return paragraph(
            strings::cat3("Nothing landed in this window, across ", across.as_str(), ".").as_str(),
        );
    }
    let stats = esc(render::stats(digest.total_commits(), digest.total_churn()).as_str());
    let mut out = p(
        FONT,
        "font-size:15px;font-weight:600",
        INK,
        "margin:0 0 16px",
        strings::cat3(stats.as_str(), " across ", across.as_str()).as_str(),
    );
    let with_date = render::dates_needed(digest);
    let list = render::lists_commits(&digest.window);
    out.append(section_blocks(sections, config, with_date, list).as_str());
    out
}

fn notes(list: &Vec<Note>) -> (out: String)
    ensures
        out@ == notes_text(strings::views(list@)),
{
    broadcast use strings::group_lists;

    let ghost all = strings::views(list@);
    let mut out = String::new();
    for i in 0..list.len()
        invariant
            all == strings::views(list@),
            out@ == notes_text(all.take(i as int)),
    {
        broadcast use strings::group_lists;

        assert(all.take(i as int).push(all[i as int]) == all.take(i + 1));
        assert(all[i as int] == list@[i as int]@);
        let colour = if list[i].severity == Severity::Info {
            QUIET
        } else {
            LOUD
        };
        let shown = p(
            FONT,
            "font-size:13px",
            colour,
            "margin:12px 0 0",
            esc(list[i].message.as_str()).as_str(),
        );
        out.append(shown.as_str());
    }
    assert(all.take(all.len() as int) =~= all);
    out
}

/// The digest as an email-ready document.
pub fn html(digest: &Digest, config: &Config) -> (out: String)
    ensures
        out@ == digest_text(digest@, config@),
{
    let grouping = render::grouping(digest, config);
    let sections = render::sections(digest, grouping.as_ref());
    let mut out = header(digest);
    out.append(caveat(&grouping).as_str());
    out.append(body(digest, config, &sections).as_str());
    let closing = if render::without_headings(&sections) || !render::busy_anywhere(&sections) {
        quiet_line(&render::sorted_repos(digest))
    } else {
        String::new()
    };
    out.append(closing.as_str());
    out.append(notes(&digest.notes).as_str());
    out.append("</div>\n</body>\n</html>\n");
    out
}

// ---------------------------------------------------------------------------
// The comparison
// ---------------------------------------------------------------------------

pub open spec fn movement_text(pair: (Text, Movement), home: Option<Text>) -> Text {
    row_text(
        "padding:2px 12px 2px 0;vertical-align:top;white-space:nowrap"@,
        escaped(render::short_path(render::from_home(pair.0, home), HTML_PATH_COLUMNS as nat)),
        if pair.1.calls_for_action() {
            LOUD@
        } else {
            INK@
        },
        "padding:2px 0;vertical-align:top"@,
        escaped(pair.1.words()),
    )
}

pub open spec fn movements_text(pairs: Seq<(Text, Movement)>, home: Option<Text>) -> Text
    decreases pairs.len(),
{
    if pairs.len() == 0 {
        Seq::empty()
    } else {
        movements_text(pairs.drop_last(), home) + movement_text(pairs.last(), home)
    }
}

/// A repository that moved, with the checkouts that did.
pub open spec fn move_text(
    name: Text,
    pairs: Seq<(Text, Movement)>,
    home: Option<Text>,
) -> Text {
    para(
        FONT@,
        "font-size:14px;font-weight:600"@,
        INK@,
        "margin:0 0 4px;padding-top:12px;border-top:1px solid "@ + RULE@,
        escaped(name),
    )
        + "<table role=\"presentation\" cellpadding=\"0\" cellspacing=\"0\" border=\"0\" style=\"width:100%;margin:0 0 12px\">\n"@
        + movements_text(pairs, home) + "</table>\n"@
}

pub open spec fn moves_text(repos: Seq<model::RepoComparisonView>, home: Option<Text>) -> Text
    decreases repos.len(),
{
    if repos.len() == 0 {
        Seq::empty()
    } else {
        let before = moves_text(repos.drop_last(), home);
        let here = markdown::moved(repos.last().checkouts);
        if here.len() == 0 {
            before
        } else {
            before + move_text(repos.last().name, here, home)
        }
    }
}

pub open spec fn comparison_text(comparison: model::ComparisonView, home: Option<Text>) -> Text {
    let start = open_text("standup \u{2014} what changed"@) + title_text(
        "standup \u{2014} what changed"@,
    ) + para(
        FONT@,
        "font-size:13px"@,
        QUIET@,
        "margin:0 0 16px"@,
        "between "@ + escaped(comparison.before.full()) + " and "@ + escaped(
            comparison.after.full(),
        ),
    );
    let across = render::counted(comparison.repos.len(), "repository"@, "repositories"@);
    if comparison.repos.len() == 0 {
        start + paragraph_text(
            "Neither digest found a repository, so there is nothing to compare."@,
        ) + close_text()
    } else if comparison.quiet() {
        start + paragraph_text("Nothing moved, across "@ + across + "."@) + close_text()
    } else {
        let names = markdown::unmoved(comparison.repos);
        let new = render::counted(
            crate::compare::new_total(comparison.repos) as nat,
            "new commit"@,
            "new commits"@,
        );
        let told = start + para(
            FONT@,
            "font-size:15px;font-weight:600"@,
            INK@,
            "margin:0 0 16px"@,
            new + " across "@ + across,
        ) + moves_text(comparison.repos, home);
        let rest = if names.len() == 0 {
            ""@
        } else {
            para(
                FONT@,
                "font-size:13px"@,
                QUIET@,
                "margin:16px 0 0"@,
                "Unchanged: "@ + strings::joined(all_escaped(names), ", "@) + "."@,
            )
        };
        told + rest + close_text()
    }
}

fn movement_rows(pairs: &Vec<&(String, Movement)>, home: &Option<String>) -> (out: String)
    ensures
        out@ == movements_text(strings::views(pairs@), strings::view_of(*home)),
{
    broadcast use strings::group_lists;

    let ghost all = strings::views(pairs@);
    let mut out = String::new();
    for i in 0..pairs.len()
        invariant
            all == strings::views(pairs@),
            out@ == movements_text(all.take(i as int), strings::view_of(*home)),
    {
        broadcast use strings::group_lists;

        assert(all.take(i as int).push(all[i as int]) == all.take(i + 1));
        let (path, movement) = pairs[i];
        assert(all[i as int] == (path@, *movement));
        let colour = if movement.loud() {
            LOUD
        } else {
            INK
        };
        let shown = render::shorten_path(path.as_str(), HTML_PATH_COLUMNS, home);
        out.append(
            row(
                "padding:2px 12px 2px 0;vertical-align:top;white-space:nowrap",
                esc(shown.as_str()).as_str(),
                colour,
                "padding:2px 0;vertical-align:top",
                esc(movement.sentence().as_str()).as_str(),
            ).as_str(),
        );
    }
    assert(all.take(all.len() as int) =~= all);
    out
}

fn move_block(name: &str, pairs: &Vec<&(String, Movement)>, home: &Option<String>) -> (out: String)
    ensures
        out@ == move_text(name@, strings::views(pairs@), strings::view_of(*home)),
{
    let head = p(
        FONT,
        "font-size:14px;font-weight:600",
        INK,
        strings::cat2("margin:0 0 4px;padding-top:12px;border-top:1px solid ", RULE).as_str(),
        esc(name).as_str(),
    );
    strings::cat4(
        head.as_str(),
        "<table role=\"presentation\" cellpadding=\"0\" cellspacing=\"0\" border=\"0\" style=\"width:100%;margin:0 0 12px\">\n",
        movement_rows(pairs, home).as_str(),
        "</table>\n",
    )
}

fn move_blocks(repos: &Vec<RepoComparison>, home: &Option<String>) -> (out: String)
    ensures
        out@ == moves_text(strings::views(repos@), strings::view_of(*home)),
{
    broadcast use strings::group_lists;

    let ghost all = strings::views(repos@);
    let mut out = String::new();
    for i in 0..repos.len()
        invariant
            all == strings::views(repos@),
            out@ == moves_text(all.take(i as int), strings::view_of(*home)),
    {
        broadcast use strings::group_lists;

        assert(all.take(i as int).push(all[i as int]) == all.take(i + 1));
        assert(all[i as int] == repos@[i as int]@);
        let here = markdown::moved_of(&repos[i]);
        assert(strings::views(here@).len() == here@.len());
        if here.len() > 0 {
            out.append(move_block(repos[i].name.as_str(), &here, home).as_str());
        }
    }
    assert(all.take(all.len() as int) =~= all);
    out
}

/// A comparison as an email.
pub fn comparison(found: &Comparison, home: &Option<String>) -> (out: String)
    ensures
        out@ == comparison_text(found@, strings::view_of(*home)),
{
    let between = strings::cat4(
        "between ",
        esc(found.before.full().as_str()).as_str(),
        " and ",
        esc(found.after.full().as_str()).as_str(),
    );
    let start = strings::cat3(
        open("standup \u{2014} what changed").as_str(),
        title("standup \u{2014} what changed").as_str(),
        p(FONT, "font-size:13px", QUIET, "margin:0 0 16px", between.as_str()).as_str(),
    );
    let end = "</div>\n</body>\n</html>\n";
    assert(found@.repos.len() == found.repos@.len());
    if found.repos.len() == 0 {
        return strings::cat3(
            start.as_str(),
            paragraph(
                "Neither digest found a repository, so there is nothing to compare.",
            ).as_str(),
            end,
        );
    }
    let across = render::quantity(found.repos.len(), "repository", "repositories");
    if found.is_quiet() {
        let told = strings::cat3("Nothing moved, across ", across.as_str(), ".");
        return strings::cat3(start.as_str(), paragraph(told.as_str()).as_str(), end);
    }
    let new = render::quantity(found.total_commits(), "new commit", "new commits");
    let told = strings::cat3(
        start.as_str(),
        p(
            FONT,
            "font-size:15px;font-weight:600",
            INK,
            "margin:0 0 16px",
            strings::cat3(new.as_str(), " across ", across.as_str()).as_str(),
        ).as_str(),
        move_blocks(&found.repos, home).as_str(),
    );
    let names = markdown::unmoved_of(&found.repos);
    assert(strings::views(names@).len() == names@.len());
    let rest = if names.len() == 0 {
        "".to_string()
    } else {
        p(
            FONT,
            "font-size:13px",
            QUIET,
            "margin:16px 0 0",
            strings::cat3(
                "Unchanged: ",
                strings::join(&esc_all(&names), ", ").as_str(),
                ".",
            ).as_str(),
        )
    };
    strings::cat3(told.as_str(), rest.as_str(), end)
}

} // verus!
