//! That nothing sent to Slack starts a mention or a link there.

use vstd::prelude::*;

use crate::by_agent;
use crate::compare;
use crate::config;
use crate::model;
use crate::model::{Movement, Note, Severity, Text};
use crate::render;
use crate::render::markdown;
use crate::render::slack;
use crate::render::text;
use crate::strings;

verus! {

/// Whether one of the three entities stands at this place.
pub open spec fn entity_at(s: Text, i: int) -> bool {
    ||| strings::begins(s.skip(i), "&amp;"@)
    ||| strings::begins(s.skip(i), "&lt;"@)
    ||| strings::begins(s.skip(i), "&gt;"@)
}

/// Whether a text starts no mention, no link and no entity of its own: it holds
/// neither `<` nor `>`, and every `&` in it begins one of the three entities.
#[verifier::opaque]
pub open spec fn inert(s: Text) -> bool {
    forall|i: int|
        0 <= i < s.len() ==> (#[trigger] s[i]) != '<' && s[i] != '>' && (s[i] == '&' ==> entity_at(
            s,
            i,
        ))
}

pub open spec fn unmarked(c: char) -> bool {
    c != '<' && c != '>' && c != '&'
}

proof fn lemma_entity_stays(a: Text, b: Text, i: int)
    requires
        0 <= i < a.len(),
        entity_at(a, i),
    ensures
        entity_at(a + b, i),
{
    let whole = (a + b).skip(i);
    let part = a.skip(i);
    assert forall|word: Text| #[trigger] strings::begins(part, word) implies strings::begins(
        whole,
        word,
    ) by {
        assert(whole.take(word.len() as int) =~= part.take(word.len() as int));
    }
}

/// Two inert texts together are inert.
pub broadcast proof fn lemma_inert_together(a: Text, b: Text)
    requires
        inert(a),
        inert(b),
    ensures
        #[trigger] inert(a + b),
{
    reveal(inert);
    let whole = a + b;
    assert forall|i: int| 0 <= i < whole.len() implies (#[trigger] whole[i]) != '<' && whole[i]
        != '>' && (whole[i] == '&' ==> entity_at(whole, i)) by {
        if i < a.len() {
            assert(whole[i] == a[i]);
            if a[i] == '&' {
                lemma_entity_stays(a, b, i);
            }
        } else {
            assert(whole[i] == b[i - a.len()]);
            assert(whole.skip(i) =~= b.skip(i - a.len()));
        }
    }
}

/// A text without the three characters is inert.
proof fn lemma_unmarked_is_inert(s: Text)
    requires
        forall|i: int| 0 <= i < s.len() ==> unmarked(#[trigger] s[i]),
    ensures
        inert(s),
{
    reveal(inert);
}

proof fn lemma_nothing()
    ensures
        inert(Seq::empty()),
{
    lemma_unmarked_is_inert(Seq::empty());
}

// ---------------------------------------------------------------------------
// What is put in
// ---------------------------------------------------------------------------

proof fn lemma_entity(c: char)
    ensures
        inert(slack::entity(c)),
{
    reveal(inert);
    reveal_strlit("&amp;");
    reveal_strlit("&lt;");
    reveal_strlit("&gt;");
    let s = slack::entity(c);
    assert(s.skip(0) =~= s);
    assert(s.take(s.len() as int) =~= s);
}

/// Whatever a text holds, its escaped form is inert.
pub broadcast proof fn lemma_escaped(s: Text)
    ensures
        #[trigger] inert(slack::escaped(s)),
    decreases s.len(),
{
    if s.len() == 0 {
        lemma_nothing();
    } else {
        lemma_escaped(s.drop_last());
        lemma_entity(s.last());
        lemma_inert_together(slack::escaped(s.drop_last()), slack::entity(s.last()));
    }
}

pub broadcast group group_inert {
    lemma_inert_together,
    lemma_escaped,
}

proof fn lemma_decimal(n: nat)
    ensures
        inert(strings::decimal(n)),
{
    strings::lemma_decimal_digits(n);
    lemma_unmarked_is_inert(strings::decimal(n));
}

proof fn lemma_counted(n: nat, one: Text, many: Text)
    requires
        inert(one),
        inert(many),
    ensures
        inert(render::counted(n, one, many)),
{
    broadcast use group_inert;

    lemma_layout_words();
    lemma_decimal(n);
}

proof fn lemma_joined(parts: Seq<Text>, separator: Text)
    requires
        forall|i: int| 0 <= i < parts.len() ==> inert(#[trigger] parts[i]),
        inert(separator),
    ensures
        inert(strings::joined(parts, separator)),
    decreases parts.len(),
{
    broadcast use group_inert;

    if parts.len() == 0 {
        lemma_nothing();
    } else {
        let rest = parts.drop_last();
        assert forall|i: int| 0 <= i < rest.len() implies inert(#[trigger] rest[i]) by {
            assert(rest[i] == parts[i]);
        }
        lemma_joined(rest, separator);
        assert(inert(parts[parts.len() - 1]));
    }
}

proof fn lemma_joined_escaped(list: Seq<Text>, separator: Text)
    requires
        inert(separator),
    ensures
        inert(strings::joined(slack::all_escaped(list), separator)),
{
    broadcast use group_inert;

    lemma_joined(slack::all_escaped(list), separator);
}

// ---------------------------------------------------------------------------
// The words around it
// ---------------------------------------------------------------------------

proof fn lemma_checkout_words()
    ensures
        inert("        "@),
        inert("\n"@),
        inert("*problem:* "@),
        inert("*standup* \u{2014} since "@),
        inert(" until "@),
        inert(" (generated "@),
        inert(")"@),
        inert("`"@),
        inert("` `"@),
        inert("` "@),
        inert("\u{2026} "@),
        inert("more commit"@),
        inert("more commits"@),
        inert(" not listed"@),
        inert("    \u{25e6} `"@),
        inert("` \u{2014} `"@),
        inert(" \u{2014} "@),
        inert("quiet"@),
        inert(": "@),
        inert("agents"@),
        inert("authors"@),
{
    reveal_strlit("        ");
    lemma_unmarked_is_inert("        "@);
    reveal_strlit("\n");
    lemma_unmarked_is_inert("\n"@);
    reveal_strlit("*problem:* ");
    lemma_unmarked_is_inert("*problem:* "@);
    reveal_strlit("*standup* \u{2014} since ");
    lemma_unmarked_is_inert("*standup* \u{2014} since "@);
    reveal_strlit(" until ");
    lemma_unmarked_is_inert(" until "@);
    reveal_strlit(" (generated ");
    lemma_unmarked_is_inert(" (generated "@);
    reveal_strlit(")");
    lemma_unmarked_is_inert(")"@);
    reveal_strlit("`");
    lemma_unmarked_is_inert("`"@);
    reveal_strlit("` `");
    lemma_unmarked_is_inert("` `"@);
    reveal_strlit("` ");
    lemma_unmarked_is_inert("` "@);
    reveal_strlit("\u{2026} ");
    lemma_unmarked_is_inert("\u{2026} "@);
    reveal_strlit("more commit");
    lemma_unmarked_is_inert("more commit"@);
    reveal_strlit("more commits");
    lemma_unmarked_is_inert("more commits"@);
    reveal_strlit(" not listed");
    lemma_unmarked_is_inert(" not listed"@);
    reveal_strlit("    \u{25e6} `");
    lemma_unmarked_is_inert("    \u{25e6} `"@);
    reveal_strlit("` \u{2014} `");
    lemma_unmarked_is_inert("` \u{2014} `"@);
    reveal_strlit(" \u{2014} ");
    lemma_unmarked_is_inert(" \u{2014} "@);
    reveal_strlit("quiet");
    lemma_unmarked_is_inert("quiet"@);
    reveal_strlit(": ");
    lemma_unmarked_is_inert(": "@);
    reveal_strlit("agents");
    lemma_unmarked_is_inert("agents"@);
    reveal_strlit("authors");
    lemma_unmarked_is_inert("authors"@);
}

proof fn lemma_layout_words()
    ensures
        inert("\u{2022} *"@),
        inert("* \u{2014} "@),
        inert(" \u{2014} over "@),
        inert("active day"@),
        inert("active days"@),
        inert("\nQuiet: "@),
        inert(", "@),
        inert(".\n"@),
        inert("\n*"@),
        inert("*"@),
        inert(""@),
        inert("No repositories were found in this session.\n"@),
        inert("Nothing landed in this window, across "@),
        inert("repository"@),
        inert("repositories"@),
        inert(" across "@),
        inert(".\n\n"@),
        inert("\u{2022} "@),
        inert("1 "@),
        inert(" "@),
{
    reveal_strlit("\u{2022} *");
    lemma_unmarked_is_inert("\u{2022} *"@);
    reveal_strlit("* \u{2014} ");
    lemma_unmarked_is_inert("* \u{2014} "@);
    reveal_strlit(" \u{2014} over ");
    lemma_unmarked_is_inert(" \u{2014} over "@);
    reveal_strlit("active day");
    lemma_unmarked_is_inert("active day"@);
    reveal_strlit("active days");
    lemma_unmarked_is_inert("active days"@);
    reveal_strlit("\nQuiet: ");
    lemma_unmarked_is_inert("\nQuiet: "@);
    reveal_strlit(", ");
    lemma_unmarked_is_inert(", "@);
    reveal_strlit(".\n");
    lemma_unmarked_is_inert(".\n"@);
    reveal_strlit("\n*");
    lemma_unmarked_is_inert("\n*"@);
    reveal_strlit("*");
    lemma_unmarked_is_inert("*"@);
    reveal_strlit("");
    lemma_unmarked_is_inert(""@);
    reveal_strlit("No repositories were found in this session.\n");
    lemma_unmarked_is_inert("No repositories were found in this session.\n"@);
    reveal_strlit("Nothing landed in this window, across ");
    lemma_unmarked_is_inert("Nothing landed in this window, across "@);
    reveal_strlit("repository");
    lemma_unmarked_is_inert("repository"@);
    reveal_strlit("repositories");
    lemma_unmarked_is_inert("repositories"@);
    reveal_strlit(" across ");
    lemma_unmarked_is_inert(" across "@);
    reveal_strlit(".\n\n");
    lemma_unmarked_is_inert(".\n\n"@);
    reveal_strlit("\u{2022} ");
    lemma_unmarked_is_inert("\u{2022} "@);
    reveal_strlit("1 ");
    lemma_unmarked_is_inert("1 "@);
    reveal_strlit(" ");
    lemma_unmarked_is_inert(" "@);
}

proof fn lemma_comparison_words()
    ensures
        inert("*\n"@),
        inert("*standup* \u{2014} what changed between *"@),
        inert("* and *"@),
        inert("*\n\n"@),
        inert("Neither digest found a repository, so there is nothing to compare.\n"@),
        inert("Nothing moved, across "@),
        inert("new commit"@),
        inert("new commits"@),
        inert("\nUnchanged: "@),
        inert("` \u{2014} "@),
{
    reveal_strlit("*\n");
    lemma_unmarked_is_inert("*\n"@);
    reveal_strlit("*standup* \u{2014} what changed between *");
    lemma_unmarked_is_inert("*standup* \u{2014} what changed between *"@);
    reveal_strlit("* and *");
    lemma_unmarked_is_inert("* and *"@);
    reveal_strlit("*\n\n");
    lemma_unmarked_is_inert("*\n\n"@);
    reveal_strlit("Neither digest found a repository, so there is nothing to compare.\n");
    lemma_unmarked_is_inert("Neither digest found a repository, so there is nothing to compare.\n"@);
    reveal_strlit("Nothing moved, across ");
    lemma_unmarked_is_inert("Nothing moved, across "@);
    reveal_strlit("new commit");
    lemma_unmarked_is_inert("new commit"@);
    reveal_strlit("new commits");
    lemma_unmarked_is_inert("new commits"@);
    reveal_strlit("\nUnchanged: ");
    lemma_unmarked_is_inert("\nUnchanged: "@);
    reveal_strlit("` \u{2014} ");
    lemma_unmarked_is_inert("` \u{2014} "@);
}

// ---------------------------------------------------------------------------
// Digests
// ---------------------------------------------------------------------------

proof fn lemma_commits(commits: Seq<model::CommitView>, with_date: bool)
    ensures
        inert(slack::commits_text(commits, with_date)),
    decreases commits.len(),
{
    broadcast use group_inert;

    lemma_nothing();
    lemma_checkout_words();
    if commits.len() > 0 {
        lemma_commits(commits.drop_last(), with_date);
        assert(inert(slack::commit_text(commits.last(), with_date)));
    }
}

proof fn lemma_commit_list(commits: Seq<model::CommitView>, max: nat, with_date: bool)
    ensures
        inert(slack::commit_list_text(commits, max, with_date)),
{
    broadcast use group_inert;

    lemma_nothing();
    lemma_checkout_words();
    lemma_commits(render::shown_commits(commits, max), with_date);
    lemma_counted(render::held_back(commits, max), "more commit"@, "more commits"@);
    assert(inert(slack::remainder_text(render::held_back(commits, max))));
}

proof fn lemma_headline(report: model::ReportView, home: Option<Text>)
    ensures
        inert(slack::headline_text(report, home)),
{
    broadcast use group_inert;

    lemma_checkout_words();
    lemma_joined_escaped(
        render::clauses(report, render::REF_UNLIMITED as nat),
        " \u{2014} "@,
    );
}

proof fn lemma_marked(loud: bool, message: Text)
    ensures
        inert(slack::marked_text(loud, message)),
        inert(slack::sub_text(slack::marked_text(loud, message))),
{
    broadcast use group_inert;

    lemma_checkout_words();
}

proof fn lemma_problems(problems: Seq<Text>)
    ensures
        inert(slack::problems_text(problems)),
    decreases problems.len(),
{
    broadcast use group_inert;

    lemma_nothing();
    if problems.len() > 0 {
        lemma_problems(problems.drop_last());
        lemma_marked(true, problems.last());
    }
}

proof fn lemma_sentence(sentence: Option<Text>)
    ensures
        inert(slack::sentence_text(sentence)),
{
    broadcast use group_inert;

    lemma_nothing();
    lemma_checkout_words();
}

proof fn lemma_checkout(
    checkout: model::CheckoutView,
    config: config::ConfigView,
    with_date: bool,
    list: bool,
)
    ensures
        inert(slack::checkout_text(checkout, config, with_date, list)),
{
    broadcast use group_inert;

    reveal(slack::checkout_text);
    let report = checkout.report;
    let remark = render::head_remark(report.head, render::REF_UNLIMITED as nat);
    lemma_nothing();
    lemma_checkout_words();
    lemma_headline(report, config.home);
    if let Some(remark) = remark {
        lemma_marked(remark.1, remark.0);
    }
    assert(inert(slack::remark_text(remark)));
    lemma_problems(report.problems);
    assert(inert(slack::credit_text(render::credited(checkout))));
    lemma_sentence(render::unpushed_text(report.unpushed));
    lemma_sentence(render::dirty_text(report.dirty));
    lemma_commit_list(report.commits, config.max_commits as nat, with_date);
}

proof fn lemma_checkouts(
    checkouts: Seq<model::CheckoutView>,
    config: config::ConfigView,
    with_date: bool,
    list: bool,
)
    ensures
        inert(slack::checkouts_text(checkouts, config, with_date, list)),
    decreases checkouts.len(),
{
    broadcast use group_inert;

    lemma_nothing();
    if checkouts.len() > 0 {
        lemma_checkouts(checkouts.drop_last(), config, with_date, list);
        lemma_checkout(checkouts.last(), config, with_date, list);
    }
}

proof fn lemma_repos(
    repos: Seq<model::RepoView>,
    config: config::ConfigView,
    with_date: bool,
    list: bool,
)
    ensures
        inert(slack::repos_text(repos, config, with_date, list)),
    decreases repos.len(),
{
    broadcast use group_inert;

    lemma_nothing();
    if repos.len() > 0 {
        let repo = repos.last();
        lemma_repos(repos.drop_last(), config, with_date, list);
        lemma_checkout_words();
        lemma_layout_words();
        lemma_counted(repo.active_days as nat, "active day"@, "active days"@);
        assert(inert(slack::repo_head_text(repo, list)));
        lemma_checkouts(render::checkouts_sorted(repo.checkouts), config, with_date, list);
        reveal(slack::repo_text);
    }
}

proof fn lemma_quiet(repos: Seq<model::RepoView>)
    ensures
        inert(slack::quiet_text(repos)),
{
    broadcast use group_inert;

    lemma_nothing();
    lemma_layout_words();
    lemma_joined_escaped(text::names_of(repos), ", "@);
}

proof fn lemma_sections(
    sections: Seq<render::SectionView>,
    config: config::ConfigView,
    with_date: bool,
    list: bool,
)
    ensures
        inert(slack::all_sections_text(sections, config, with_date, list)),
    decreases sections.len(),
{
    broadcast use group_inert;

    lemma_nothing();
    if sections.len() > 0 {
        let section = sections.last();
        lemma_sections(sections.drop_last(), config, with_date, list);
        lemma_checkout_words();
        lemma_layout_words();
        assert(inert(slack::heading_text(section)));
        lemma_repos(model::busy_among(section.repos), config, with_date, list);
        lemma_quiet(model::quiet_among(section.repos));
        reveal(slack::section_text);
    }
}

proof fn lemma_notes(notes: Seq<Note<Text>>)
    ensures
        inert(slack::note_list_text(notes)),
    decreases notes.len(),
{
    broadcast use group_inert;

    lemma_nothing();
    if notes.len() > 0 {
        lemma_notes(notes.drop_last());
        lemma_checkout_words();
        lemma_layout_words();
        lemma_marked(notes.last().severity != Severity::Info, notes.last().message);
    }
}

proof fn lemma_body(
    digest: model::DigestView,
    config: config::ConfigView,
    sections: Seq<render::SectionView>,
)
    ensures
        inert(slack::body_text(digest, config, sections)),
{
    broadcast use group_inert;

    lemma_layout_words();
    lemma_counted(render::section_total(sections) as nat, "repository"@, "repositories"@);
    lemma_counted(digest.repos.len(), "repository"@, "repositories"@);
    lemma_sections(
        sections,
        config,
        render::needs_dates(digest),
        !(digest.window.source is Rollup),
    );
}

/// Nothing in a digest starts a mention or a link in Slack, wherever it came
/// from: a branch, a path, a subject, a note or a name. No `<` and no `>` is
/// left in it, and every `&` begins one of the three entities.
pub proof fn law_a_digest_is_inert(
    digest: model::DigestView,
    config: config::ConfigView,
    grouping: Option<by_agent::GroupingView>,
)
    ensures
        inert(slack::digest_text(digest, config, grouping)),
{
    broadcast use group_inert;

    let sections = render::sections_of(digest, grouping);
    lemma_nothing();
    lemma_checkout_words();
    assert(inert(slack::header_text(digest, grouping)));
    lemma_body(digest, config, sections);
    lemma_quiet(render::all_quiet(sections));
    lemma_notes(digest.notes);
    assert(inert(slack::notes_text(digest.notes)));
}

// ---------------------------------------------------------------------------
// Comparisons
// ---------------------------------------------------------------------------

proof fn lemma_movements(pairs: Seq<(Text, Movement)>, home: Option<Text>)
    ensures
        inert(slack::movements_text(pairs, home)),
    decreases pairs.len(),
{
    broadcast use group_inert;

    lemma_nothing();
    if pairs.len() > 0 {
        lemma_movements(pairs.drop_last(), home);
        lemma_checkout_words();
        lemma_layout_words();
        lemma_comparison_words();
        assert(inert(slack::movement_text(pairs.last(), home)));
    }
}

proof fn lemma_moves(repos: Seq<model::RepoComparisonView>, home: Option<Text>)
    ensures
        inert(slack::moves_text(repos, home)),
    decreases repos.len(),
{
    broadcast use group_inert;

    lemma_nothing();
    if repos.len() > 0 {
        lemma_moves(repos.drop_last(), home);
        lemma_layout_words();
        lemma_comparison_words();
        lemma_movements(markdown::moved(repos.last().checkouts), home);
    }
}

/// The same of a comparison.
pub proof fn law_a_comparison_is_inert(comparison: model::ComparisonView, home: Option<Text>)
    ensures
        inert(slack::comparison_text(comparison, home)),
{
    broadcast use group_inert;

    lemma_layout_words();
    lemma_comparison_words();
    lemma_counted(comparison.repos.len(), "repository"@, "repositories"@);
    lemma_counted(
        compare::new_total(comparison.repos) as nat,
        "new commit"@,
        "new commits"@,
    );
    lemma_moves(comparison.repos, home);
    lemma_joined_escaped(markdown::unmoved(comparison.repos), ", "@);
}

} // verus!
