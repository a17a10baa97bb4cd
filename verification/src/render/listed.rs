//! What escaping keeps, which commits a rendering lists, and what a comparison
//! tells: nothing that is shown is changed or lost on the way.

use vstd::prelude::*;

use crate::config;
use crate::config::Format;
use crate::model;
use crate::model::{Activity, Movement, Note, Severity, Text, OID_COLUMNS};
use crate::render;
use crate::render::html;
use crate::render::markdown;
use crate::render::shown;
use crate::render::slack;
use crate::render::text;
use crate::strings;

verus! {

// ---------------------------------------------------------------------------
// Escaping
// ---------------------------------------------------------------------------

/// In HTML the four characters with a meaning of their own are written as
/// entities, and every other character as it is.
pub proof fn law_html_is_escaped_character_by_character(a: Text, b: Text, c: char)
    ensures
        html::escaped(a + b) == html::escaped(a) + html::escaped(b),
        html::escaped(seq!['&']) == "&amp;"@,
        html::escaped(seq!['<']) == "&lt;"@,
        html::escaped(seq!['>']) == "&gt;"@,
        html::escaped(seq!['"']) == "&quot;"@,
        c != '&' && c != '<' && c != '>' && c != '"' ==> html::escaped(seq![c]) == seq![c],
    decreases b.len(),
{
    lemma_html_one('&');
    lemma_html_one('<');
    lemma_html_one('>');
    lemma_html_one('"');
    lemma_html_one(c);
    if b.len() == 0 {
        assert(a + b =~= a);
    } else {
        law_html_is_escaped_character_by_character(a, b.drop_last(), c);
        assert((a + b).drop_last() =~= a + b.drop_last());
        assert((a + b).last() == b.last());
    }
}

proof fn lemma_html_one(c: char)
    ensures
        html::escaped(seq![c]) == html::entity(c),
{
    assert(seq![c].drop_last() =~= Seq::empty());
    assert(html::escaped(seq![c].drop_last()) =~= Seq::empty());
    assert(Seq::<char>::empty() + html::entity(c) =~= html::entity(c));
}

/// For Slack three are, and in a code span a backtick becomes an apostrophe and a
/// control character a space.
pub proof fn law_slack_is_escaped_character_by_character(a: Text, b: Text, c: char)
    ensures
        slack::escaped(a + b) == slack::escaped(a) + slack::escaped(b),
        slack::escaped(seq!['&']) == "&amp;"@,
        slack::escaped(seq!['<']) == "&lt;"@,
        slack::escaped(seq!['>']) == "&gt;"@,
        c != '&' && c != '<' && c != '>' ==> slack::escaped(seq![c]) == seq![c],
        c == '`' ==> slack::flattened(a.push(c)) == slack::flattened(a).push('\''),
        strings::control(c) && c != '`' ==> slack::flattened(a.push(c)) == slack::flattened(a).push(
            ' ',
        ),
        !strings::control(c) && c != '`' ==> slack::flattened(a.push(c)) == slack::flattened(
            a,
        ).push(c),
        slack::flattened(Seq::empty()).len() == 0,
    decreases b.len(),
{
    lemma_slack_one('&');
    lemma_slack_one('<');
    lemma_slack_one('>');
    lemma_slack_one(c);
    if b.len() == 0 {
        assert(a + b =~= a);
    } else {
        law_slack_is_escaped_character_by_character(a, b.drop_last(), c);
        assert((a + b).drop_last() =~= a + b.drop_last());
        assert((a + b).last() == b.last());
    }
    let told = slack::flattened(a.push(c));
    if c == '`' {
        assert(told =~= slack::flattened(a).push('\''));
    } else if strings::control(c) {
        assert(told =~= slack::flattened(a).push(' '));
    } else {
        assert(told =~= slack::flattened(a).push(c));
    }
}

proof fn lemma_slack_one(c: char)
    ensures
        slack::escaped(seq![c]) == slack::entity(c),
{
    assert(seq![c].drop_last() =~= Seq::empty());
    assert(slack::escaped(seq![c].drop_last()) =~= Seq::empty());
    assert(Seq::<char>::empty() + slack::entity(c) =~= slack::entity(c));
}

/// What Markdown reads of escaped text: the character behind a backslash stands
/// for itself.
pub open spec fn read_back(s: Text) -> Text
    decreases s.len(),
{
    if s.len() == 0 {
        Seq::empty()
    } else if s[0] == '\\' && s.len() > 1 {
        seq![s[1]] + read_back(s.skip(2))
    } else {
        seq![s[0]] + read_back(s.skip(1))
    }
}

/// A text as one line: every control character is a space, every other character
/// itself.
pub open spec fn on_one_line(s: Text) -> Text {
    Seq::new(
        s.len(),
        |i: int|
            if strings::control(s[i]) {
                ' '
            } else {
                s[i]
            },
    )
}

proof fn lemma_guarded_reads_back(s: Text, rest: Text)
    ensures
        read_back(markdown::guarded(s) + rest) == on_one_line(s) + read_back(rest),
    decreases s.len(),
{
    if s.len() == 0 {
        assert(markdown::guarded(s) + rest =~= rest);
        assert(on_one_line(s) + read_back(rest) =~= read_back(rest));
    } else {
        let before = s.drop_last();
        let c = s.last();
        let p = markdown::plain(c);
        assert(on_one_line(s) =~= on_one_line(before).push(p));
        let token = if markdown::special(c) {
            seq!['\\', p]
        } else {
            seq![p]
        };
        assert(markdown::guarded(s) =~= markdown::guarded(before) + token);
        let more = token + rest;
        assert(markdown::guarded(s) + rest =~= markdown::guarded(before) + more);
        lemma_guarded_reads_back(before, more);
        if markdown::special(c) {
            assert(more.skip(2) =~= rest);
            assert(more[0] == '\\' && more[1] == p);
        } else {
            assert(more.skip(1) =~= rest);
            assert(more[0] == p);
            assert(p != '\\');
        }
        assert(read_back(more) == seq![p] + read_back(rest));
        assert(on_one_line(before) + (seq![p] + read_back(rest)) =~= on_one_line(s) + read_back(
            rest,
        ));
    }
}

proof fn lemma_plain_reads_back(plain: Text, rest: Text)
    requires
        forall|i: int| 0 <= i < plain.len() ==> #[trigger] plain[i] != '\\',
    ensures
        read_back(plain + rest) == plain + read_back(rest),
    decreases plain.len(),
{
    if plain.len() == 0 {
        assert(plain + rest =~= rest);
        assert(plain + read_back(rest) =~= read_back(rest));
    } else {
        let tail = plain.drop_first();
        assert(forall|i: int| 0 <= i < tail.len() ==> #[trigger] tail[i] == plain[i + 1]);
        lemma_plain_reads_back(tail, rest);
        assert((plain + rest).skip(1) =~= tail + rest);
        assert((plain + rest)[0] == plain[0]);
        assert(seq![plain[0]] + (tail + read_back(rest)) =~= plain + read_back(rest));
    }
}

proof fn lemma_leading_digits_are_digits(s: Text)
    ensures
        markdown::leading_digits(s) <= s.len(),
        forall|i: int|
            0 <= i < markdown::leading_digits(s) ==> strings::digit(#[trigger] s[i]),
    decreases s.len(),
{
    if s.len() > 0 && strings::digit(s[0]) {
        let rest = s.drop_first();
        lemma_leading_digits_are_digits(rest);
        assert forall|i: int| 0 <= i < markdown::leading_digits(s) implies strings::digit(
            #[trigger] s[i],
        ) by {
            if i > 0 {
                assert(rest[i - 1] == s[i]);
            }
        }
    }
}

/// What is escaped for Markdown reads as the text it was, on one line.
pub proof fn law_escaped_markdown_reads_as_it_was(s: Text)
    ensures
        read_back(markdown::escaped(s)) == on_one_line(s),
{
    reveal(markdown::escaped);
    let out = markdown::guarded(s);
    lemma_guarded_reads_back(s, Seq::empty());
    assert(out + Seq::<char>::empty() =~= out);
    assert(read_back(Seq::empty()) =~= Seq::empty());
    assert(on_one_line(s) + Seq::<char>::empty() =~= on_one_line(s));
    if markdown::leads(out) {
        let told = seq!['\\'] + out;
        assert(told[0] == '\\' && told[1] == out[0]);
        assert(told.skip(2) =~= out.skip(1));
        assert(out[0] == '#' || out[0] == '-' || out[0] == '+');
    } else if markdown::numbers(out) {
        let n = markdown::leading_digits(out) as int;
        lemma_leading_digits_are_digits(out);
        let (digits, tail) = (out.take(n), out.skip(n));
        let told = digits + seq!['\\'] + tail;
        let rest = seq!['\\'] + tail;
        assert forall|i: int| 0 <= i < digits.len() implies #[trigger] digits[i] != '\\' by {
            assert(digits[i] == out[i]);
            assert(strings::digit(out[i]));
        }
        assert(told =~= digits + rest);
        lemma_plain_reads_back(digits, rest);
        lemma_plain_reads_back(digits, tail);
        assert(digits + tail =~= out);
        assert(rest[0] == '\\' && rest[1] == tail[0]);
        assert(rest.skip(2) =~= tail.skip(1));
        assert(tail[0] == out[n]);
        assert(read_back(rest) == read_back(tail));
    }
}

/// A code span holds the text it is of, on one line.
pub proof fn law_a_code_span_holds_its_text(s: Text)
    ensures
        !strings::blank(on_one_line(s)) ==> strings::holds(markdown::code_text(s), on_one_line(s)),
        strings::blank(on_one_line(s)) ==> markdown::code_text(s) == "`(empty)`"@,
{
    let flat = markdown::flattened(s);
    assert(flat =~= on_one_line(s));
    strings::law_trimming_takes_white_space_off_the_ends(flat);
    if !strings::blank(flat) {
        let fence = strings::repeated('`', markdown::longest_run(flat) + 1);
        let pad = if markdown::edge(flat[0]) || markdown::edge(flat.last()) {
            " "@
        } else {
            ""@
        };
        strings::lemma_holds_itself(flat);
        strings::lemma_holds_together(fence + pad, flat, flat);
        strings::lemma_holds_together(fence + pad + flat, pad, flat);
        strings::lemma_holds_together(fence + pad + flat + pad, fence, flat);
    }
}

// ---------------------------------------------------------------------------
// Commits
// ---------------------------------------------------------------------------

/// How a commit is to be found in a format.
pub open spec fn commit_form(
    format: Format,
    commit: model::CommitView,
    with_date: bool,
) -> Text {
    match format {
        Format::Text => text::commit_text(commit, with_date),
        Format::Markdown => markdown::commit_text(commit, with_date).drop_last(),
        Format::Slack => slack::commit_text(commit, with_date),
        Format::Html | Format::Json => html::commit_text(commit, with_date),
    }
}

proof fn lemma_text_commits(commits: Seq<model::CommitView>, with_date: bool, i: int)
    requires
        0 <= i < commits.len(),
    ensures
        strings::holds(
            text::commits_text(commits, with_date),
            text::commit_text(commits[i], with_date),
        ),
    decreases commits.len(),
{
    broadcast use strings::lemma_holds_together;

    strings::lemma_holds_itself(text::commit_text(commits[i], with_date));
    if i < commits.len() - 1 {
        assert(commits.drop_last()[i] == commits[i]);
        lemma_text_commits(commits.drop_last(), with_date, i);
    }
}

proof fn lemma_markdown_commits(commits: Seq<model::CommitView>, with_date: bool, i: int)
    requires
        0 <= i < commits.len(),
    ensures
        strings::holds(
            markdown::commits_text(commits, with_date),
            markdown::commit_text(commits[i], with_date),
        ),
    decreases commits.len(),
{
    broadcast use strings::lemma_holds_together;

    strings::lemma_holds_itself(markdown::commit_text(commits[i], with_date));
    if i < commits.len() - 1 {
        assert(commits.drop_last()[i] == commits[i]);
        lemma_markdown_commits(commits.drop_last(), with_date, i);
    }
}

proof fn lemma_slack_commits(commits: Seq<model::CommitView>, with_date: bool, i: int)
    requires
        0 <= i < commits.len(),
    ensures
        strings::holds(
            slack::commits_text(commits, with_date),
            slack::commit_text(commits[i], with_date),
        ),
    decreases commits.len(),
{
    broadcast use strings::lemma_holds_together;

    strings::lemma_holds_itself(slack::commit_text(commits[i], with_date));
    if i < commits.len() - 1 {
        assert(commits.drop_last()[i] == commits[i]);
        lemma_slack_commits(commits.drop_last(), with_date, i);
    }
}

proof fn lemma_html_commits(commits: Seq<model::CommitView>, with_date: bool, i: int)
    requires
        0 <= i < commits.len(),
    ensures
        strings::holds(
            html::commits_text(commits, with_date),
            html::commit_text(commits[i], with_date),
        ),
    decreases commits.len(),
{
    broadcast use strings::lemma_holds_together;

    strings::lemma_holds_itself(html::commit_text(commits[i], with_date));
    if i < commits.len() - 1 {
        assert(commits.drop_last()[i] == commits[i]);
        lemma_html_commits(commits.drop_last(), with_date, i);
    }
}

/// What holds a text with one character behind it holds the text.
proof fn lemma_holds_less(s: Text, part: Text)
    requires
        strings::holds(s, part),
        part.len() > 0,
    ensures
        strings::holds(s, part.drop_last()),
{
    let i = choose|i: int| 0 <= i <= s.len() && strings::begins(#[trigger] s.skip(i), part);
    let less = part.drop_last();
    assert(s.skip(i).take(less.len() as int) =~= s.skip(i).take(part.len() as int).drop_last());
    assert(strings::begins(s.skip(i), less));
}

/// Every commit that is among those to be shown is listed, in every format that
/// people read and however the digest is grouped, unless it is a rollup.
pub proof fn law_every_shown_commit_is_listed(
    digest: model::DigestView,
    config: config::ConfigView,
    r: int,
    c: int,
    i: int,
)
    requires
        0 <= r < digest.repos.len(),
        0 <= c < digest.repos[r].checkouts.len(),
        0 <= i < render::shown_commits(
            digest.repos[r].checkouts[c].report.commits,
            config.max_commits as nat,
        ).len(),
        config.format != Format::Json,
        !(digest.window.source is Rollup),
        shown::section_count(render::sections_of(digest, render::grouping_asked(digest, config)))
            <= usize::MAX,
    ensures
        render::rendered(digest, config) is Some,
        strings::holds(
            render::rendered(digest, config)->0,
            commit_form(
                config.format,
                render::shown_commits(
                    digest.repos[r].checkouts[c].report.commits,
                    config.max_commits as nat,
                )[i],
                render::needs_dates(digest),
            ),
        ),
{
    broadcast use strings::lemma_holds_together;

    let checkout = digest.repos[r].checkouts[c];
    let max = config.max_commits as nat;
    let shown = render::shown_commits(checkout.report.commits, max);
    let with_date = render::needs_dates(digest);
    let part = commit_form(config.format, shown[i], with_date);
    render::law_no_commit_is_dropped(checkout.report.commits, max);
    assert(checkout.report.commits.len() > 0);
    match config.format {
        Format::Text => {
            reveal(text::checkout_text);
            lemma_text_commits(shown, with_date, i);
            assert(strings::holds(
                text::commit_list_text(checkout.report.commits, max, with_date),
                part,
            ));
        },
        Format::Markdown => {
            reveal(markdown::checkout_text);
            lemma_markdown_commits(shown, with_date, i);
            lemma_markdown_commit_ends(shown[i], with_date);
            lemma_holds_less(
                markdown::commits_text(shown, with_date),
                markdown::commit_text(shown[i], with_date),
            );
            assert(strings::holds(
                markdown::commit_list_text(checkout.report.commits, max, with_date),
                part,
            ));
        },
        Format::Slack => {
            reveal(slack::checkout_text);
            lemma_slack_commits(shown, with_date, i);
            assert(strings::holds(
                slack::commit_list_text(checkout.report.commits, max, with_date),
                part,
            ));
        },
        Format::Html | Format::Json => {
            reveal(html::checkout_text);
            lemma_html_commits(shown, with_date, i);
            assert(strings::holds(
                html::commit_list_text(checkout.report.commits, max, with_date),
                part,
            ));
        },
    }
    shown::lemma_block_is_shown(digest, config, r, c, part);
}

proof fn lemma_markdown_commit_ends(commit: model::CommitView, with_date: bool)
    ensures
        markdown::commit_text(commit, with_date).len() > 0,
        markdown::commit_text(commit, with_date).drop_last().len() > 0
            ==> markdown::commit_text(commit, with_date).drop_last().last() != '\n',
{
    reveal_strlit("\n");
    reveal_strlit(" \u{2014} ");
    let subject = markdown::escaped(
        render::cut_right(strings::trimmed(commit.subject), markdown::MD_SUBJECT_COLUMNS as nat),
    );
    shown::lemma_markdown_ends_plainly(
        render::cut_right(strings::trimmed(commit.subject), markdown::MD_SUBJECT_COLUMNS as nat),
    );
    let told = markdown::commit_text(commit, with_date);
    let line = told.drop_last();
    if subject.len() > 0 {
        assert(line.last() == subject.last());
    } else {
        assert(line.last() == ' ');
    }
}

/// A commit is listed with its id, its time and its subject, in each format.
pub proof fn law_a_listed_commit_tells_its_id_and_subject(
    commit: model::CommitView,
    with_date: bool,
)
    ensures
        ({
            let id = strings::leading(commit.oid, OID_COLUMNS as nat);
            let time = render::instant_text(commit.committed, with_date);
            let subject = strings::trimmed(commit.subject);
            &&& strings::holds(markdown::commit_text(commit, with_date), markdown::code_text(id))
            &&& strings::holds(markdown::commit_text(commit, with_date), markdown::code_text(time))
            &&& strings::holds(
                markdown::commit_text(commit, with_date),
                markdown::escaped(
                    render::cut_right(subject, markdown::MD_SUBJECT_COLUMNS as nat),
                ),
            )
            &&& strings::holds(slack::commit_text(commit, with_date), slack::span(id))
            &&& strings::holds(slack::commit_text(commit, with_date), slack::span(time))
            &&& strings::holds(slack::commit_text(commit, with_date), slack::escaped(subject))
            &&& strings::holds(html::commit_text(commit, with_date), html::escaped(id))
            &&& strings::holds(html::commit_text(commit, with_date), html::escaped(time))
            &&& strings::holds(html::commit_text(commit, with_date), html::escaped(subject))
        }),
{
    let id = strings::leading(commit.oid, OID_COLUMNS as nat);
    let time = render::instant_text(commit.committed, with_date);
    let subject = strings::trimmed(commit.subject);
    let cut = markdown::escaped(render::cut_right(subject, markdown::MD_SUBJECT_COLUMNS as nat));
    lemma_three_in_a_row(
        strings::repeated(' ', 4) + "- "@,
        markdown::code_text(time),
        " "@,
        markdown::code_text(id),
        " \u{2014} "@,
        cut,
        "\n"@,
    );
    assert(markdown::commit_text(commit, with_date) =~= strings::repeated(' ', 4) + "- "@
        + markdown::code_text(time) + " "@ + markdown::code_text(id) + " \u{2014} "@ + cut + "\n"@);
    lemma_three_in_a_row(
        "        "@ + "`"@,
        slack::span(time),
        "` `"@,
        slack::span(id),
        "` "@,
        slack::escaped(subject),
        "\n"@,
    );
    assert(slack::commit_text(commit, with_date) =~= "        "@ + "`"@ + slack::span(time)
        + "` `"@ + slack::span(id) + "` "@ + slack::escaped(subject) + "\n"@);
    let left = html::opening(
        "td"@,
        html::MONO@,
        "font-size:12px"@,
        html::QUIET@,
        "padding:1px 10px 1px 0;vertical-align:top;white-space:nowrap"@,
    );
    let right = html::opening(
        "td"@,
        html::FONT@,
        "font-size:13px"@,
        html::INK@,
        "padding:1px 0;vertical-align:top"@,
    );
    lemma_three_in_a_row(
        "<tr>"@ + left,
        html::escaped(time),
        " "@,
        html::escaped(id),
        "</td>"@ + right,
        html::escaped(subject),
        "</td></tr>\n"@,
    );
    assert(html::commit_text(commit, with_date) =~= "<tr>"@ + left + html::escaped(time) + " "@
        + html::escaped(id) + ("</td>"@ + right) + html::escaped(subject) + "</td></tr>\n"@);
}

proof fn lemma_three_in_a_row(
    start: Text,
    a: Text,
    x: Text,
    b: Text,
    y: Text,
    c: Text,
    end: Text,
)
    ensures
        strings::holds(start + a + x + b + y + c + end, a),
        strings::holds(start + a + x + b + y + c + end, b),
        strings::holds(start + a + x + b + y + c + end, c),
{
    strings::lemma_holds_itself(a);
    strings::lemma_holds_itself(b);
    strings::lemma_holds_itself(c);
    strings::lemma_holds_together(start, a, a);
    strings::lemma_holds_together(start + a, x, a);
    strings::lemma_holds_together(start + a + x, b, a);
    strings::lemma_holds_together(start + a + x + b, y, a);
    strings::lemma_holds_together(start + a + x + b + y, c, a);
    strings::lemma_holds_together(start + a + x + b + y + c, end, a);
    strings::lemma_holds_together(start + a + x, b, b);
    strings::lemma_holds_together(start + a + x + b, y, b);
    strings::lemma_holds_together(start + a + x + b + y, c, b);
    strings::lemma_holds_together(start + a + x + b + y + c, end, b);
    strings::lemma_holds_together(start + a + x + b + y, c, c);
    strings::lemma_holds_together(start + a + x + b + y + c, end, c);
}

/// Commits that are held back are told with their number, exactly where there are
/// any.
pub proof fn law_commits_held_back_are_told_with_their_number(shown: nat, held_back: nat)
    ensures
        held_back == 0 ==> markdown::remainder_text(shown, held_back).len() == 0
            && slack::remainder_text(held_back).len() == 0 && html::remainder_text(held_back).len()
            == 0 && text::remainder_text(shown, held_back).len() == 0,
        held_back > 1 ==> strings::holds(
            markdown::remainder_text(shown, held_back),
            strings::decimal(held_back),
        ) && strings::holds(slack::remainder_text(held_back), strings::decimal(held_back))
            && strings::holds(html::remainder_text(held_back), strings::decimal(held_back)),
{
    broadcast use strings::lemma_holds_together;

    strings::lemma_holds_itself(strings::decimal(held_back));
}

// ---------------------------------------------------------------------------
// Movements
// ---------------------------------------------------------------------------

/// What moved among some checkouts: all that is not unchanged, and nothing else.
pub proof fn law_only_what_is_unchanged_is_left_out(
    checkouts: Seq<(Text, Movement)>,
    pair: (Text, Movement),
)
    ensures
        markdown::moved(Seq::empty()) == Seq::<(Text, Movement)>::empty(),
        pair.1 is Unchanged ==> markdown::moved(checkouts.push(pair)) == markdown::moved(checkouts),
        !(pair.1 is Unchanged) ==> markdown::moved(checkouts.push(pair)) == markdown::moved(
            checkouts,
        ).push(pair),
{
    reveal(Seq::filter);
    assert(checkouts.push(pair).drop_last() =~= checkouts);
}

/// A repository is named among the unchanged ones exactly where nothing in it
/// moved.
pub proof fn law_an_unchanged_repository_is_named(
    repos: Seq<model::RepoComparisonView>,
    repo: model::RepoComparisonView,
)
    ensures
        markdown::unmoved(Seq::empty()) == Seq::<Text>::empty(),
        markdown::moved(repo.checkouts).len() == 0 ==> markdown::unmoved(repos.push(repo))
            == markdown::unmoved(repos).push(repo.name),
        markdown::moved(repo.checkouts).len() > 0 ==> markdown::unmoved(repos.push(repo))
            == markdown::unmoved(repos),
{
    assert(repos.push(repo).drop_last() =~= repos);
}

/// How a movement is to be found in a format.
pub open spec fn movement_form(
    format: Format,
    pair: (Text, Movement),
    home: Option<Text>,
) -> Text {
    match format {
        Format::Text => text::movement_text(pair, home),
        Format::Markdown => markdown::movement_text(pair, home),
        Format::Slack => slack::movement_text(pair, home),
        Format::Html | Format::Json => html::movement_text(pair, home),
    }
}

proof fn lemma_movements(
    format: Format,
    pairs: Seq<(Text, Movement)>,
    home: Option<Text>,
    i: int,
)
    requires
        0 <= i < pairs.len(),
    ensures
        ({
            let part = movement_form(format, pairs[i], home);
            match format {
                Format::Text => strings::holds(text::movements_text(pairs, home), part),
                Format::Markdown => strings::holds(markdown::movements_text(pairs, home), part),
                Format::Slack => strings::holds(slack::movements_text(pairs, home), part),
                Format::Html | Format::Json => strings::holds(
                    html::movements_text(pairs, home),
                    part,
                ),
            }
        }),
    decreases pairs.len(),
{
    broadcast use strings::lemma_holds_together;

    strings::lemma_holds_itself(movement_form(format, pairs[i], home));
    if i < pairs.len() - 1 {
        assert(pairs.drop_last()[i] == pairs[i]);
        lemma_movements(format, pairs.drop_last(), home, i);
    }
}

proof fn lemma_moved_has(checkouts: Seq<(Text, Movement)>, c: int) -> (i: int)
    requires
        0 <= c < checkouts.len(),
        !(checkouts[c].1 is Unchanged),
    ensures
        0 <= i < markdown::moved(checkouts).len(),
        markdown::moved(checkouts)[i] == checkouts[c],
    decreases checkouts.len(),
{
    let rest = checkouts.drop_last();
    law_only_what_is_unchanged_is_left_out(rest, checkouts.last());
    assert(rest.push(checkouts.last()) =~= checkouts);
    if c < rest.len() {
        assert(rest[c] == checkouts[c]);
        lemma_moved_has(rest, c)
    } else {
        (markdown::moved(checkouts).len() - 1) as int
    }
}

proof fn lemma_moves(
    format: Format,
    repos: Seq<model::RepoComparisonView>,
    home: Option<Text>,
    r: int,
    c: int,
)
    requires
        0 <= r < repos.len(),
        0 <= c < repos[r].checkouts.len(),
        !(repos[r].checkouts[c].1 is Unchanged),
    ensures
        ({
            let part = movement_form(format, repos[r].checkouts[c], home);
            match format {
                Format::Text => strings::holds(text::moves_text(repos, home), part),
                Format::Markdown => strings::holds(markdown::moves_text(repos, home), part),
                Format::Slack => strings::holds(slack::moves_text(repos, home), part),
                Format::Html | Format::Json => strings::holds(html::moves_text(repos, home), part),
            }
        }),
    decreases repos.len(),
{
    broadcast use strings::lemma_holds_together;

    let rest = repos.drop_last();
    if r < rest.len() {
        assert(rest[r] == repos[r]);
        lemma_moves(format, rest, home, r, c);
    } else {
        let i = lemma_moved_has(repos[r].checkouts, c);
        lemma_movements(format, markdown::moved(repos[r].checkouts), home, i);
    }
}

/// Everything that moved is in a comparison, in every format that people read.
pub proof fn law_everything_that_moved_is_told(
    comparison: model::ComparisonView,
    config: config::ConfigView,
    r: int,
    c: int,
)
    requires
        0 <= r < comparison.repos.len(),
        0 <= c < comparison.repos[r].checkouts.len(),
        !(comparison.repos[r].checkouts[c].1 is Unchanged),
        config.format != Format::Json,
    ensures
        render::comparison_rendered(comparison, config) is Some,
        strings::holds(
            render::comparison_rendered(comparison, config)->0,
            movement_form(config.format, comparison.repos[r].checkouts[c], config.home),
        ),
{
    broadcast use strings::lemma_holds_together;

    assert(!crate::compare::still(comparison.repos[r].checkouts));
    assert(!comparison.quiet());
    lemma_moves(config.format, comparison.repos, config.home, r, c);
}

/// A movement is told with its words; what calls for someone to act stands out.
pub proof fn law_a_movement_that_calls_for_action_stands_out(
    pair: (Text, Movement),
    home: Option<Text>,
)
    ensures
        strings::holds(
            markdown::movement_text(pair, home),
            markdown::escaped(pair.1.words()),
        ),
        strings::holds(slack::movement_text(pair, home), slack::escaped(pair.1.words())),
        strings::holds(html::movement_text(pair, home), html::escaped(pair.1.words())),
        pair.1.calls_for_action() ==> strings::holds(
            markdown::movement_text(pair, home),
            "**"@ + markdown::escaped(pair.1.words()) + "**"@,
        ) && strings::holds(
            slack::movement_text(pair, home),
            "*"@ + slack::escaped(pair.1.words()) + "*"@,
        ) && strings::holds(html::movement_text(pair, home), html::LOUD@),
{
    broadcast use strings::lemma_holds_together;

    strings::lemma_holds_itself(markdown::escaped(pair.1.words()));
    strings::lemma_holds_itself(slack::escaped(pair.1.words()));
    strings::lemma_holds_itself(html::escaped(pair.1.words()));
    strings::lemma_holds_itself(html::LOUD@);
    strings::lemma_holds_itself("**"@ + markdown::escaped(pair.1.words()) + "**"@);
    strings::lemma_holds_itself("*"@ + slack::escaped(pair.1.words()) + "*"@);
}

/// A comparison tells the two instants it lies between, and how many commits are
/// new where anything moved.
pub proof fn law_a_comparison_tells_its_instants(
    comparison: model::ComparisonView,
    home: Option<Text>,
)
    ensures
        strings::holds(
            markdown::comparison_text(comparison, home),
            markdown::escaped(comparison.before.full()),
        ),
        strings::holds(
            markdown::comparison_text(comparison, home),
            markdown::escaped(comparison.after.full()),
        ),
        strings::holds(
            slack::comparison_text(comparison, home),
            slack::escaped(comparison.before.full()),
        ),
        strings::holds(
            slack::comparison_text(comparison, home),
            slack::escaped(comparison.after.full()),
        ),
        strings::holds(
            html::comparison_text(comparison, home),
            html::escaped(comparison.before.full()),
        ),
        strings::holds(
            html::comparison_text(comparison, home),
            html::escaped(comparison.after.full()),
        ),
        comparison.repos.len() > 0 && !comparison.quiet() ==> ({
            let new = render::counted(
                crate::compare::new_total(comparison.repos) as nat,
                "new commit"@,
                "new commits"@,
            );
            &&& strings::holds(markdown::comparison_text(comparison, home), new)
            &&& strings::holds(slack::comparison_text(comparison, home), new)
            &&& strings::holds(html::comparison_text(comparison, home), new)
        }),
{
    broadcast use strings::lemma_holds_together;

    strings::lemma_holds_itself(markdown::escaped(comparison.before.full()));
    strings::lemma_holds_itself(markdown::escaped(comparison.after.full()));
    strings::lemma_holds_itself(slack::escaped(comparison.before.full()));
    strings::lemma_holds_itself(slack::escaped(comparison.after.full()));
    strings::lemma_holds_itself(html::escaped(comparison.before.full()));
    strings::lemma_holds_itself(html::escaped(comparison.after.full()));
    strings::lemma_holds_itself(
        render::counted(
            crate::compare::new_total(comparison.repos) as nat,
            "new commit"@,
            "new commits"@,
        ),
    );
}

// ---------------------------------------------------------------------------
// What a checkout and a repository are shown with
// ---------------------------------------------------------------------------

/// What came out of a checkout, where it got and how it stands to its upstream is
/// shown, in Markdown and for Slack, however the digest is grouped.
pub proof fn law_every_clause_is_shown(
    digest: model::DigestView,
    config: config::ConfigView,
    r: int,
    c: int,
    i: int,
)
    requires
        0 <= r < digest.repos.len(),
        0 <= c < digest.repos[r].checkouts.len(),
        digest.repos[r].checkouts[c].report.activity() != Activity::Quiet,
        0 <= i < 3,
        config.format == Format::Markdown || config.format == Format::Slack,
        shown::section_count(render::sections_of(digest, render::grouping_asked(digest, config)))
            <= usize::MAX,
    ensures
        render::rendered(digest, config) is Some,
        ({
            let clause = render::clauses(
                digest.repos[r].checkouts[c].report,
                render::REF_UNLIMITED as nat,
            )[i];
            strings::holds(
                render::rendered(digest, config)->0,
                if config.format == Format::Markdown {
                    markdown::escaped(clause)
                } else {
                    slack::escaped(clause)
                },
            )
        }),
{
    broadcast use strings::lemma_holds_together;

    let report = digest.repos[r].checkouts[c].report;
    let clauses = render::clauses(report, render::REF_UNLIMITED as nat);
    match config.format {
        Format::Markdown => {
            reveal(markdown::checkout_text);
            let part = markdown::escaped(clauses[i]);
            let all = markdown::all_escaped(clauses);
            assert(all[i] == part);
            strings::lemma_holds_itself(part);
            shown::lemma_joined_keeps(all, " \u{2014} "@, i, part);
            assert(strings::holds(markdown::headline_text(report, config.home), part));
            shown::lemma_markdown_ends_plainly(clauses[i]);
            shown::lemma_block_is_shown(digest, config, r, c, part);
        },
        _ => {
            reveal(slack::checkout_text);
            let part = slack::escaped(clauses[i]);
            let all = slack::all_escaped(clauses);
            assert(all[i] == part);
            strings::lemma_holds_itself(part);
            shown::lemma_joined_keeps(all, " \u{2014} "@, i, part);
            assert(strings::holds(slack::headline_text(report, config.home), part));
            shown::lemma_block_is_shown(digest, config, r, c, part);
        },
    }
}

/// A repository is headed by its name and its totals, and in a rollup by the days
/// on which it was worked in.
pub proof fn law_a_repository_is_headed_by_its_totals(repo: model::RepoView, list: bool)
    ensures
        ({
            let stats = render::stats_text(repo.commits, repo.churn);
            &&& strings::holds(markdown::repo_head_text(repo, list), markdown::escaped(repo.name))
            &&& strings::holds(markdown::repo_head_text(repo, list), stats)
            &&& strings::holds(slack::repo_head_text(repo, list), slack::escaped(repo.name))
            &&& strings::holds(slack::repo_head_text(repo, list), slack::escaped(stats))
            &&& strings::holds(html::repo_head_text(repo, list), html::escaped(repo.name))
            &&& strings::holds(html::repo_head_text(repo, list), html::escaped(stats))
            &&& !list && repo.active_days > 0 ==> ({
                let days = render::counted(
                    repo.active_days as nat,
                    "active day"@,
                    "active days"@,
                );
                &&& strings::holds(markdown::repo_head_text(repo, list), days)
                &&& strings::holds(slack::repo_head_text(repo, list), days)
                &&& strings::holds(html::repo_head_text(repo, list), days)
            })
        }),
{
    broadcast use strings::lemma_holds_together;

    let stats = render::stats_text(repo.commits, repo.churn);
    strings::lemma_holds_itself(markdown::escaped(repo.name));
    strings::lemma_holds_itself(slack::escaped(repo.name));
    strings::lemma_holds_itself(html::escaped(repo.name));
    strings::lemma_holds_itself(stats);
    strings::lemma_holds_itself(slack::escaped(stats));
    strings::lemma_holds_itself(html::escaped(stats));
    strings::lemma_holds_itself(
        render::counted(repo.active_days as nat, "active day"@, "active days"@),
    );
}

/// A digest with something to report states its totals and the number of its
/// repositories.
pub proof fn law_a_digest_states_its_totals(
    digest: model::DigestView,
    config: config::ConfigView,
    sections: Seq<render::SectionView>,
)
    requires
        digest.repos.len() > 0,
        render::section_total(sections) > 0,
        render::any_busy(sections),
    ensures
        ({
            let stats = render::stats_text(
                model::commit_total(digest.repos),
                model::churn_total(digest.repos),
            );
            let across = render::counted(digest.repos.len(), "repository"@, "repositories"@);
            &&& strings::holds(markdown::body_text(digest, config, sections), stats)
            &&& strings::holds(markdown::body_text(digest, config, sections), across)
            &&& strings::holds(slack::body_text(digest, config, sections), slack::escaped(stats))
            &&& strings::holds(slack::body_text(digest, config, sections), across)
            &&& strings::holds(html::body_text(digest, config, sections), html::escaped(stats))
            &&& strings::holds(html::body_text(digest, config, sections), across)
        }),
{
    broadcast use strings::lemma_holds_together;

    let stats = render::stats_text(
        model::commit_total(digest.repos),
        model::churn_total(digest.repos),
    );
    strings::lemma_holds_itself(stats);
    strings::lemma_holds_itself(slack::escaped(stats));
    strings::lemma_holds_itself(html::escaped(stats));
    strings::lemma_holds_itself(
        render::counted(digest.repos.len(), "repository"@, "repositories"@),
    );
}

/// A problem and a warning stand out from what is only told.
pub proof fn law_a_problem_stands_out(message: Text)
    ensures
        markdown::marked_text(true, message) == "**problem:** "@ + markdown::escaped(message),
        markdown::marked_text(false, message) == markdown::escaped(message),
        slack::marked_text(true, message) == "*problem:* "@ + slack::escaped(message),
        slack::marked_text(false, message) == slack::escaped(message),
        text::note_text(Note { severity: Severity::Warning, message }) == text::wrapped_text(
            "    ! "@,
            "      "@,
            message,
        ),
        text::note_text(Note { severity: Severity::Info, message }) == text::wrapped_text(
            "    - "@,
            "      "@,
            message,
        ),
{
}

/// In Markdown each character that could mean something stands behind a backslash,
/// every other one as it is, and a control character as a space.
pub proof fn law_markdown_is_guarded_character_by_character(s: Text, c: char)
    ensures
        ({
            let meant = c == '\\' || c == '`' || c == '*' || c == '_' || c == '[' || c == ']' || c
                == '<' || c == '>' || c == '|' || c == '~' || c == '&';
            &&& meant ==> markdown::guarded(s.push(c)) == markdown::guarded(s).push('\\').push(c)
            &&& !meant && !strings::control(c) ==> markdown::guarded(s.push(c))
                == markdown::guarded(s).push(c)
            &&& strings::control(c) ==> markdown::guarded(s.push(c)) == markdown::guarded(s).push(
                ' ',
            )
            &&& markdown::guarded(Seq::empty()).len() == 0
        }),
{
    assert(s.push(c).drop_last() =~= s);
}

// ---------------------------------------------------------------------------
// The terminal report
// ---------------------------------------------------------------------------

/// Whether a word fits on a line behind an indent.
pub open spec fn fits_behind(word: Text, indent: Text) -> bool {
    render::columns(indent) + render::columns(word) <= render::WIDTH
}

proof fn lemma_line_keeps(prefix: Text, current: Text, part: Text)
    requires
        current.len() > 0,
        !strings::white(current.last()),
        fits_behind(current, prefix),
        strings::holds(current, part),
    ensures
        strings::holds(text::line_text(prefix + current), part),
{
    let line = prefix + current;
    render::lemma_columns_add(prefix, current);
    assert(line.last() == current.last());
    assert(strings::trimmed_end(line) == line);
    render::law_truncation_leaves_what_fits(line, render::WIDTH as nat);
    strings::lemma_holds_together(prefix, current, part);
    strings::lemma_holds_together(line, seq!['\n'], part);
    assert(line + seq!['\n'] =~= line.push('\n'));
}

/// Whether what stands on the line so far can be written behind its indent.
pub open spec fn in_place(prose: text::Wrapping, first: Text, rest: Text) -> bool {
    prose.current.len() > 0 ==> !strings::white(prose.current.last()) && fits_behind(
        prose.current,
        text::indent(prose.continued, first, rest),
    )
}

/// Whether a word stands among the lines or on the line so far.
#[verifier::opaque]
pub open spec fn told(prose: text::Wrapping, part: Text) -> bool {
    strings::holds(prose.done, part) || strings::holds(prose.current, part)
}

proof fn lemma_word_is_told(prose: text::Wrapping, word: Text, first: Text, rest: Text)
    requires
        render::columns(first) < render::WIDTH,
        render::columns(rest) < render::WIDTH,
        in_place(prose, first, rest),
        word.len() > 0,
        !strings::white(word.last()),
        fits_behind(word, text::indent(prose.continued, first, rest)),
        fits_behind(word, rest),
    ensures
        in_place(text::with_word(prose, word, first, rest), first, rest),
        text::with_word(prose, word, first, rest).current.len() > 0,
        told(text::with_word(prose, word, first, rest), word),
{
    reveal(told);
    strings::lemma_holds_itself(word);
    let candidate = prose.current + " "@ + word;
    strings::lemma_holds_together(prose.current + " "@, word, word);
    assert(candidate.last() == word.last());
}

proof fn lemma_word_keeps(prose: text::Wrapping, word: Text, first: Text, rest: Text, part: Text)
    requires
        in_place(prose, first, rest),
        told(prose, part),
        part.len() > 0,
    ensures
        told(text::with_word(prose, word, first, rest), part),
{
    reveal(told);
    let prefix = text::indent(prose.continued, first, rest);
    if prose.current.len() == 0 {
        assert(!strings::holds(prose.current, part)) by {
            assert(forall|i: int|
                0 <= i <= prose.current.len() ==> (#[trigger] prose.current.skip(i)).len() == 0);
        }
    } else {
        let line = text::line_text(prefix + prose.current);
        if strings::holds(prose.current, part) {
            strings::lemma_holds_together(prose.current, " "@, part);
            strings::lemma_holds_together(prose.current + " "@, word, part);
            lemma_line_keeps(prefix, prose.current, part);
        }
        strings::lemma_holds_together(prose.done, line, part);
    }
}

proof fn lemma_words_are_kept(words: Seq<Text>, first: Text, rest: Text)
    requires
        render::columns(first) < render::WIDTH,
        render::columns(rest) < render::WIDTH,
        forall|i: int|
            0 <= i < words.len() ==> (#[trigger] words[i]).len() > 0 && !strings::white(
                words[i].last(),
            ) && fits_behind(words[i], first) && fits_behind(words[i], rest),
    ensures
        ({
            let prose = text::with_words(words, first, rest);
            &&& in_place(prose, first, rest)
            &&& words.len() > 0 ==> prose.current.len() > 0
            &&& forall|i: int| 0 <= i < words.len() ==> told(prose, #[trigger] words[i])
        }),
    decreases words.len(),
{
    if words.len() > 0 {
        let fewer = words.drop_last();
        let word = words.last();
        assert(forall|i: int| 0 <= i < fewer.len() ==> #[trigger] fewer[i] == words[i]);
        lemma_words_are_kept(fewer, first, rest);
        let before = text::with_words(fewer, first, rest);
        assert(words[words.len() - 1] == word);
        lemma_word_is_told(before, word, first, rest);
        assert forall|i: int| 0 <= i < words.len() implies told(
            text::with_words(words, first, rest),
            #[trigger] words[i],
        ) by {
            if i < fewer.len() {
                assert(fewer[i] == words[i]);
                lemma_word_keeps(before, word, first, rest, words[i]);
            }
        }
    }
}

/// Prose that is wrapped loses no word, as long as every word fits on a line.
pub proof fn law_wrapping_loses_no_word(first: Text, rest: Text, s: Text, i: int)
    requires
        render::columns(first) < render::WIDTH,
        render::columns(rest) < render::WIDTH,
        0 <= i < strings::words(s).len(),
        forall|k: int|
            0 <= k < strings::words(s).len() ==> fits_behind(
                #[trigger] strings::words(s)[k],
                first,
            ) && fits_behind(strings::words(s)[k], rest),
    ensures
        strings::holds(text::wrapped_text(first, rest, s), strings::words(s)[i]),
{
    let words = strings::words(s);
    strings::law_words_are_runs(s);
    assert forall|k: int| 0 <= k < words.len() implies (#[trigger] words[k]).len() > 0
        && !strings::white(words[k].last()) by {
        assert(words[k][words[k].len() - 1] == words[k].last());
    }
    lemma_words_are_kept(words, first, rest);
    reveal(told);
    let prose = text::with_words(words, first, rest);
    assert(told(prose, words[i]));
    let prefix = text::indent(prose.continued, first, rest);
    let line = text::line_text(prefix + prose.current);
    if !strings::holds(prose.done, words[i]) {
        lemma_line_keeps(prefix, prose.current, words[i]);
    }
    strings::lemma_holds_together(prose.done, line, words[i]);
}

/// A checkout is headed by its branch and its path, in each format.
pub proof fn law_a_checkout_is_headed_by_its_branch_and_path(
    report: model::ReportView,
    home: Option<Text>,
)
    ensures
        strings::holds(
            markdown::headline_text(report, home),
            markdown::code_text(
                render::cut_right(
                    render::head_text(report.head),
                    markdown::MD_BRANCH_COLUMNS as nat,
                ),
            ),
        ),
        strings::holds(
            markdown::headline_text(report, home),
            markdown::code_text(
                render::short_path(
                    render::from_home(report.path, home),
                    markdown::MD_PATH_COLUMNS as nat,
                ),
            ),
        ),
        strings::holds(
            slack::headline_text(report, home),
            slack::span(
                render::cut_right(
                    render::head_text(report.head),
                    slack::SLACK_PATH_COLUMNS as nat,
                ),
            ),
        ),
        strings::holds(
            slack::headline_text(report, home),
            slack::span(
                render::short_path(
                    render::from_home(report.path, home),
                    slack::SLACK_PATH_COLUMNS as nat,
                ),
            ),
        ),
        strings::holds(html::place_text(report, home), html::escaped(render::head_text(report.head))),
        strings::holds(
            html::place_text(report, home),
            html::escaped(
                render::short_path(
                    render::from_home(report.path, home),
                    html::HTML_PATH_COLUMNS as nat,
                ),
            ),
        ),
{
    broadcast use strings::lemma_holds_together;

    let path = render::from_home(report.path, home);
    let head = render::head_text(report.head);
    strings::lemma_holds_itself(
        markdown::code_text(render::cut_right(head, markdown::MD_BRANCH_COLUMNS as nat)),
    );
    strings::lemma_holds_itself(
        markdown::code_text(render::short_path(path, markdown::MD_PATH_COLUMNS as nat)),
    );
    strings::lemma_holds_itself(
        slack::span(render::cut_right(head, slack::SLACK_PATH_COLUMNS as nat)),
    );
    strings::lemma_holds_itself(
        slack::span(render::short_path(path, slack::SLACK_PATH_COLUMNS as nat)),
    );
    strings::lemma_holds_itself(html::escaped(head));
    strings::lemma_holds_itself(
        html::escaped(render::short_path(path, html::HTML_PATH_COLUMNS as nat)),
    );
}

/// Escaped prose never begins like a list item or a heading.
pub proof fn law_escaped_prose_begins_no_list(s: Text)
    ensures
        ({
            let told = markdown::escaped(s);
            &&& told.len() >= 2 && (told[0] == '-' || told[0] == '+') ==> told[1] != ' '
            &&& told.len() == 1 ==> told[0] != '-' && told[0] != '+' && told[0] != '#'
            &&& told.len() >= 2 && told[0] == '#' ==> told[1] != ' '
            &&& told.len() >= 3 && strings::digit(told[0]) && (told[1] == '.' || told[1] == ')')
                ==> told[2] != ' '
        }),
{
    reveal(markdown::escaped);
    markdown::law_escaped_text_stays_text(s);
    let told = markdown::escaped(s);
    reveal_with_fuel(markdown::leading_run, 3);
    reveal_with_fuel(markdown::leading_digits, 3);
    assert(!markdown::leads(told));
    assert(!markdown::numbers(told));
    if told.len() >= 2 && told[0] == '#' {
        assert(told.drop_first()[0] == told[1]);
    }
    if told.len() >= 2 && strings::digit(told[0]) {
        assert(told.drop_first()[0] == told[1]);
    }
}

} // verus!
