//! What no rendering of a digest depends on: the session id of an agent, and
//! what the run exits with.

use vstd::prelude::*;

use crate::by_agent;
use crate::config;
use crate::config::Format;
use crate::model;
use crate::model::{AgentRef, Text};
use crate::order;
use crate::render;
use crate::render::html;
use crate::render::markdown;
use crate::render::slack;
use crate::render::text;
use crate::rollup;

verus! {

// ---------------------------------------------------------------------------
// The same but for session ids
// ---------------------------------------------------------------------------

pub open spec fn agents_alike(a: AgentRef<Text>, b: AgentRef<Text>) -> bool {
    &&& a.name == b.name
    &&& a.program == b.program
    &&& a.pane_id == b.pane_id
    &&& a.status == b.status
    &&& a.cwd == b.cwd
}

pub open spec fn rosters_alike(a: Seq<AgentRef<Text>>, b: Seq<AgentRef<Text>>) -> bool {
    order::pairwise(a, b, |a: AgentRef<Text>, b: AgentRef<Text>| agents_alike(a, b))
}

pub open spec fn workspaces_alike(a: model::WorkspaceView, b: model::WorkspaceView) -> bool {
    &&& rosters_alike(a.agents, b.agents)
    &&& a == (model::WorkspaceView { agents: a.agents, ..b })
}

pub open spec fn checkout_alike(a: model::CheckoutView, b: model::CheckoutView) -> bool {
    &&& a.report == b.report
    &&& order::pairwise(
        a.workspaces,
        b.workspaces,
        |a: model::WorkspaceView, b: model::WorkspaceView| workspaces_alike(a, b),
    )
    &&& rosters_alike(a.agents, b.agents)
}

pub open spec fn checkouts_alike(
    a: Seq<model::CheckoutView>,
    b: Seq<model::CheckoutView>,
) -> bool {
    order::pairwise(a, b, |a: model::CheckoutView, b: model::CheckoutView| checkout_alike(a, b))
}

pub open spec fn repo_alike(a: model::RepoView, b: model::RepoView) -> bool {
    &&& checkouts_alike(a.checkouts, b.checkouts)
    &&& a == (model::RepoView { checkouts: a.checkouts, ..b })
}

pub open spec fn repos_alike(a: Seq<model::RepoView>, b: Seq<model::RepoView>) -> bool {
    order::pairwise(a, b, |a: model::RepoView, b: model::RepoView| repo_alike(a, b))
}

/// Whether two digests differ in nothing but the session ids of agents.
pub open spec fn digests_alike(a: model::DigestView, b: model::DigestView) -> bool {
    &&& repos_alike(a.repos, b.repos)
    &&& a == (model::DigestView { repos: a.repos, ..b })
}

/// Whether two configurations ask for the same rendering.
pub open spec fn configs_alike(a: config::ConfigView, b: config::ConfigView) -> bool {
    &&& a.format == b.format
    &&& a.by_agent == b.by_agent
    &&& a.ignore == b.ignore
    &&& a.max_commits == b.max_commits
    &&& a.home == b.home
}

proof fn lemma_shorter<V>(a: Seq<V>, b: Seq<V>, alike: spec_fn(V, V) -> bool)
    requires
        order::pairwise(a, b, alike),
        a.len() > 0,
    ensures
        order::pairwise(a.drop_last(), b.drop_last(), alike),
        alike(a.last(), b.last()),
{
    assert forall|i: int| 0 <= i < a.drop_last().len() implies alike(
        #[trigger] a.drop_last()[i],
        b.drop_last()[i],
    ) by {
        assert(alike(a[i], b[i]));
    }
    assert(alike(a[a.len() - 1], b[a.len() - 1]));
}

proof fn lemma_fewer_checkouts(a: Seq<model::CheckoutView>, b: Seq<model::CheckoutView>)
    requires
        checkouts_alike(a, b),
        a.len() > 0,
    ensures
        checkouts_alike(a.drop_last(), b.drop_last()),
        checkout_alike(a.last(), b.last()),
{
    lemma_shorter(a, b, |a: model::CheckoutView, b: model::CheckoutView| checkout_alike(a, b));
}

proof fn lemma_fewer_repos(a: Seq<model::RepoView>, b: Seq<model::RepoView>)
    requires
        repos_alike(a, b),
        a.len() > 0,
    ensures
        repos_alike(a.drop_last(), b.drop_last()),
        repo_alike(a.last(), b.last()),
{
    lemma_shorter(a, b, |a: model::RepoView, b: model::RepoView| repo_alike(a, b));
}

proof fn lemma_fewer_agents(a: Seq<AgentRef<Text>>, b: Seq<AgentRef<Text>>)
    requires
        rosters_alike(a, b),
        a.len() > 0,
    ensures
        rosters_alike(a.drop_last(), b.drop_last()),
        agents_alike(a.last(), b.last()),
{
    lemma_shorter(a, b, |a: AgentRef<Text>, b: AgentRef<Text>| agents_alike(a, b));
}

// ---------------------------------------------------------------------------
// What is worked out from checkouts
// ---------------------------------------------------------------------------

proof fn lemma_checkouts(a: Seq<model::CheckoutView>, b: Seq<model::CheckoutView>)
    requires
        checkouts_alike(a, b),
    ensures
        model::loudest(a) == model::loudest(b),
        render::widest_label(a) == render::widest_label(b),
        rollup::all_commits(a) == rollup::all_commits(b),
    decreases a.len(),
{
    if a.len() > 0 {
        lemma_fewer_checkouts(a, b);
        lemma_checkouts(a.drop_last(), b.drop_last());
    } else {
        assert(a =~= b);
    }
}

proof fn lemma_labelled(a: Seq<AgentRef<Text>>, b: Seq<AgentRef<Text>>)
    requires
        rosters_alike(a, b),
    ensures
        render::labelled(a) == render::labelled(b),
    decreases a.len(),
{
    if a.len() > 0 {
        lemma_fewer_agents(a, b);
        lemma_labelled(a.drop_last(), b.drop_last());
    } else {
        assert(a =~= b);
    }
}

proof fn lemma_sorted_checkouts(a: Seq<model::CheckoutView>, b: Seq<model::CheckoutView>)
    requires
        checkouts_alike(a, b),
    ensures
        checkouts_alike(render::checkouts_sorted(a), render::checkouts_sorted(b)),
{
    order::lemma_arranged_alike(
        a,
        b,
        |a: model::CheckoutView, b: model::CheckoutView| checkout_alike(a, b),
        |a: model::CheckoutView, b: model::CheckoutView| render::checkout_first(a, b),
    );
}

proof fn lemma_repo_first(
    a: model::RepoView,
    b: model::RepoView,
    c: model::RepoView,
    d: model::RepoView,
)
    requires
        repo_alike(a, c),
        repo_alike(b, d),
    ensures
        render::repo_first(a, b) == render::repo_first(c, d),
{
    lemma_checkouts(a.checkouts, c.checkouts);
    lemma_checkouts(b.checkouts, d.checkouts);
}

proof fn lemma_sorted_repos(a: Seq<model::RepoView>, b: Seq<model::RepoView>)
    requires
        repos_alike(a, b),
    ensures
        repos_alike(render::repos_sorted(a), render::repos_sorted(b)),
{
    let alike = |a: model::RepoView, b: model::RepoView| repo_alike(a, b);
    let first = |a: model::RepoView, b: model::RepoView| render::repo_first(a, b);
    assert forall|p: model::RepoView, q: model::RepoView, r: model::RepoView, s: model::RepoView|
        #[trigger] alike(p, r) && #[trigger] alike(q, s) implies first(p, q) == first(r, s) by {
        lemma_repo_first(p, q, r, s);
    }
    order::lemma_arranged_alike(a, b, alike, first);
}

// ---------------------------------------------------------------------------
// What is worked out from repositories
// ---------------------------------------------------------------------------

proof fn lemma_repos(a: Seq<model::RepoView>, b: Seq<model::RepoView>)
    requires
        repos_alike(a, b),
    ensures
        model::commit_total(a) == model::commit_total(b),
        model::churn_total(a) == model::churn_total(b),
        repos_alike(model::busy_among(a), model::busy_among(b)),
        repos_alike(model::quiet_among(a), model::quiet_among(b)),
        text::names_of(a) == text::names_of(b),
    decreases a.len(),
{
    reveal(Seq::filter);
    assert(text::names_of(a) =~= text::names_of(b)) by {
        assert forall|i: int| 0 <= i < a.len() implies (#[trigger] a[i]).name == b[i].name by {
            assert(repo_alike(a[i], b[i]));
        }
    }
    if a.len() > 0 {
        lemma_fewer_repos(a, b);
        lemma_repos(a.drop_last(), b.drop_last());
        lemma_checkouts(a.last().checkouts, b.last().checkouts);
        let alike = |a: model::RepoView, b: model::RepoView| repo_alike(a, b);
        assert(order::pairwise(model::busy_among(a), model::busy_among(b), alike));
        assert(order::pairwise(model::quiet_among(a), model::quiet_among(b), alike));
    }
}

proof fn lemma_dates(a: model::DigestView, b: model::DigestView)
    requires
        digests_alike(a, b),
    ensures
        render::needs_dates(a) == render::needs_dates(b),
{
    let day = render::date_text(a.window.since);
    assert(render::repos_on(a.repos, day) == render::repos_on(b.repos, day)) by {
        assert forall|i: int| 0 <= i < a.repos.len() implies render::checkouts_on(
            (#[trigger] a.repos[i]).checkouts,
            day,
        ) == render::checkouts_on(b.repos[i].checkouts, day) by {
            assert(repo_alike(a.repos[i], b.repos[i]));
            let (c, d) = (a.repos[i].checkouts, b.repos[i].checkouts);
            assert forall|k: int| 0 <= k < c.len() implies (#[trigger] c[k]).report
                == d[k].report by {
                assert(checkout_alike(c[k], d[k]));
            }
            if render::checkouts_on(c, day) {
                assert forall|k: int| 0 <= k < d.len() implies render::commit_on(
                    (#[trigger] d[k]).report.commits,
                    day,
                ) by {
                    assert(c[k].report == d[k].report);
                }
            }
        }
        if render::repos_on(a.repos, day) {
            assert forall|i: int| 0 <= i < b.repos.len() implies render::checkouts_on(
                (#[trigger] b.repos[i]).checkouts,
                day,
            ) by {
                assert(render::checkouts_on(a.repos[i].checkouts, day));
            }
        }
    }
}

// ---------------------------------------------------------------------------
// What is written of repositories
// ---------------------------------------------------------------------------

proof fn lemma_text_checkouts(
    a: Seq<model::CheckoutView>,
    b: Seq<model::CheckoutView>,
    width: nat,
    config: config::ConfigView,
    other: config::ConfigView,
    with_date: bool,
    list: bool,
)
    requires
        checkouts_alike(a, b),
        configs_alike(config, other),
    ensures
        text::checkouts_text(a, width, config, with_date, list) == text::checkouts_text(
            b,
            width,
            other,
            with_date,
            list,
        ),
    decreases a.len(),
{
    if a.len() > 0 {
        lemma_fewer_checkouts(a, b);
        lemma_text_checkouts(a.drop_last(), b.drop_last(), width, config, other, with_date, list);
        lemma_labelled(a.last().agents, b.last().agents);
        reveal(text::checkout_text);
    }
}

proof fn lemma_text_repos(
    a: Seq<model::RepoView>,
    b: Seq<model::RepoView>,
    config: config::ConfigView,
    other: config::ConfigView,
    with_date: bool,
    list: bool,
)
    requires
        repos_alike(a, b),
        configs_alike(config, other),
    ensures
        text::repos_text(a, config, with_date, list) == text::repos_text(
            b,
            other,
            with_date,
            list,
        ),
    decreases a.len(),
{
    if a.len() > 0 {
        lemma_fewer_repos(a, b);
        lemma_text_repos(a.drop_last(), b.drop_last(), config, other, with_date, list);
        lemma_checkouts(a.last().checkouts, b.last().checkouts);
        lemma_sorted_checkouts(a.last().checkouts, b.last().checkouts);
        lemma_text_checkouts(
            render::checkouts_sorted(a.last().checkouts),
            render::checkouts_sorted(b.last().checkouts),
            render::branch_width(a.last().checkouts),
            config,
            other,
            with_date,
            list,
        );
    }
}

proof fn lemma_markdown_checkouts(
    a: Seq<model::CheckoutView>,
    b: Seq<model::CheckoutView>,
    config: config::ConfigView,
    other: config::ConfigView,
    with_date: bool,
    list: bool,
)
    requires
        checkouts_alike(a, b),
        configs_alike(config, other),
    ensures
        markdown::checkouts_text(a, config, with_date, list) == markdown::checkouts_text(
            b,
            other,
            with_date,
            list,
        ),
    decreases a.len(),
{
    if a.len() > 0 {
        lemma_fewer_checkouts(a, b);
        lemma_markdown_checkouts(a.drop_last(), b.drop_last(), config, other, with_date, list);
        lemma_labelled(a.last().agents, b.last().agents);
        reveal(markdown::checkout_text);
    }
}

proof fn lemma_markdown_repos(
    a: Seq<model::RepoView>,
    b: Seq<model::RepoView>,
    config: config::ConfigView,
    other: config::ConfigView,
    with_date: bool,
    list: bool,
)
    requires
        repos_alike(a, b),
        configs_alike(config, other),
    ensures
        markdown::repos_text(a, config, with_date, list) == markdown::repos_text(
            b,
            other,
            with_date,
            list,
        ),
    decreases a.len(),
{
    if a.len() > 0 {
        lemma_fewer_repos(a, b);
        lemma_markdown_repos(a.drop_last(), b.drop_last(), config, other, with_date, list);
        lemma_checkouts(a.last().checkouts, b.last().checkouts);
        lemma_sorted_checkouts(a.last().checkouts, b.last().checkouts);
        lemma_markdown_checkouts(
            render::checkouts_sorted(a.last().checkouts),
            render::checkouts_sorted(b.last().checkouts),
            config,
            other,
            with_date,
            list,
        );
        reveal(markdown::repo_text);
    }
}

proof fn lemma_slack_checkouts(
    a: Seq<model::CheckoutView>,
    b: Seq<model::CheckoutView>,
    config: config::ConfigView,
    other: config::ConfigView,
    with_date: bool,
    list: bool,
)
    requires
        checkouts_alike(a, b),
        configs_alike(config, other),
    ensures
        slack::checkouts_text(a, config, with_date, list) == slack::checkouts_text(
            b,
            other,
            with_date,
            list,
        ),
    decreases a.len(),
{
    if a.len() > 0 {
        lemma_fewer_checkouts(a, b);
        lemma_slack_checkouts(a.drop_last(), b.drop_last(), config, other, with_date, list);
        lemma_labelled(a.last().agents, b.last().agents);
        reveal(slack::checkout_text);
    }
}

proof fn lemma_slack_repos(
    a: Seq<model::RepoView>,
    b: Seq<model::RepoView>,
    config: config::ConfigView,
    other: config::ConfigView,
    with_date: bool,
    list: bool,
)
    requires
        repos_alike(a, b),
        configs_alike(config, other),
    ensures
        slack::repos_text(a, config, with_date, list) == slack::repos_text(
            b,
            other,
            with_date,
            list,
        ),
    decreases a.len(),
{
    if a.len() > 0 {
        lemma_fewer_repos(a, b);
        lemma_slack_repos(a.drop_last(), b.drop_last(), config, other, with_date, list);
        lemma_checkouts(a.last().checkouts, b.last().checkouts);
        lemma_sorted_checkouts(a.last().checkouts, b.last().checkouts);
        lemma_slack_checkouts(
            render::checkouts_sorted(a.last().checkouts),
            render::checkouts_sorted(b.last().checkouts),
            config,
            other,
            with_date,
            list,
        );
        reveal(slack::repo_text);
    }
}

proof fn lemma_html_checkouts(
    a: Seq<model::CheckoutView>,
    b: Seq<model::CheckoutView>,
    config: config::ConfigView,
    other: config::ConfigView,
    with_date: bool,
    list: bool,
)
    requires
        checkouts_alike(a, b),
        configs_alike(config, other),
    ensures
        html::checkouts_text(a, config, with_date, list) == html::checkouts_text(
            b,
            other,
            with_date,
            list,
        ),
    decreases a.len(),
{
    if a.len() > 0 {
        lemma_fewer_checkouts(a, b);
        lemma_html_checkouts(a.drop_last(), b.drop_last(), config, other, with_date, list);
        lemma_labelled(a.last().agents, b.last().agents);
        reveal(html::checkout_text);
    }
}

proof fn lemma_html_repos(
    a: Seq<model::RepoView>,
    b: Seq<model::RepoView>,
    config: config::ConfigView,
    other: config::ConfigView,
    with_date: bool,
    list: bool,
)
    requires
        repos_alike(a, b),
        configs_alike(config, other),
    ensures
        html::repos_text(a, config, with_date, list) == html::repos_text(
            b,
            other,
            with_date,
            list,
        ),
    decreases a.len(),
{
    if a.len() > 0 {
        lemma_fewer_repos(a, b);
        lemma_html_repos(a.drop_last(), b.drop_last(), config, other, with_date, list);
        lemma_checkouts(a.last().checkouts, b.last().checkouts);
        lemma_sorted_checkouts(a.last().checkouts, b.last().checkouts);
        lemma_html_checkouts(
            render::checkouts_sorted(a.last().checkouts),
            render::checkouts_sorted(b.last().checkouts),
            config,
            other,
            with_date,
            list,
        );
        reveal(html::repo_text);
    }
}

// ---------------------------------------------------------------------------
// What is worked out by agent
// ---------------------------------------------------------------------------

pub open spec fn mention_alike(a: by_agent::Mention<Text>, b: by_agent::Mention<Text>) -> bool {
    a.label == b.label
}

pub open spec fn mentions_alike(
    a: Seq<by_agent::Mention<Text>>,
    b: Seq<by_agent::Mention<Text>>,
) -> bool {
    order::pairwise(
        a,
        b,
        |a: by_agent::Mention<Text>, b: by_agent::Mention<Text>| mention_alike(a, b),
    )
}

proof fn lemma_remembered(
    a: Seq<by_agent::Mention<Text>>,
    b: Seq<by_agent::Mention<Text>>,
    more: Seq<by_agent::Mention<Text>>,
    others: Seq<by_agent::Mention<Text>>,
)
    requires
        mentions_alike(a, b),
        mentions_alike(more, others),
    ensures
        mentions_alike(
            by_agent::all_remembered(a, more),
            by_agent::all_remembered(b, others),
        ),
    decreases more.len(),
{
    if more.len() > 0 {
        lemma_shorter(
            more,
            others,
            |a: by_agent::Mention<Text>, b: by_agent::Mention<Text>| mention_alike(a, b),
        );
        lemma_remembered(a, b, more.drop_last(), others.drop_last());
        let c = by_agent::all_remembered(a, more.drop_last());
        let d = by_agent::all_remembered(b, others.drop_last());
        let label = more.last().label;
        assert(by_agent::has_label(c, label) == by_agent::has_label(d, label)) by {
            if by_agent::has_label(c, label) {
                let k = choose|k: int| 0 <= k < c.len() && (#[trigger] c[k]).label == label;
                assert(mention_alike(c[k], d[k]));
                assert(d[k].label == label);
            }
            if by_agent::has_label(d, label) {
                let k = choose|k: int| 0 <= k < d.len() && (#[trigger] d[k]).label == label;
                assert(mention_alike(c[k], d[k]));
                assert(c[k].label == label);
            }
        }
    }
}

proof fn lemma_mentions(a: model::CheckoutView, b: model::CheckoutView)
    requires
        checkout_alike(a, b),
    ensures
        mentions_alike(by_agent::mentions(a), by_agent::mentions(b)),
        forall|label: Text| #[trigger]
            by_agent::belongs(a, label) == by_agent::belongs(b, label),
{
    assert forall|i: int| 0 <= i < a.agents.len() implies by_agent::label_of(
        #[trigger] a.agents[i],
    ) == by_agent::label_of(b.agents[i]) by {
        assert(agents_alike(a.agents[i], b.agents[i]));
    }
    let (c, d) = (by_agent::mentions(a), by_agent::mentions(b));
    assert(mentions_alike(c, d)) by {
        assert forall|i: int| 0 <= i < c.len() implies mention_alike(#[trigger] c[i], d[i]) by {
            if a.agents.len() > 0 {
                assert(agents_alike(a.agents[i], b.agents[i]));
            }
        }
    }
    assert forall|label: Text| #[trigger] by_agent::belongs(a, label) == by_agent::belongs(
        b,
        label,
    ) by {
        if by_agent::belongs(a, label) && a.agents.len() > 0 {
            let k = choose|k: int|
                0 <= k < a.agents.len() && by_agent::label_of(#[trigger] a.agents[k]) == label;
            assert(by_agent::label_of(b.agents[k]) == label);
        }
        if by_agent::belongs(b, label) && b.agents.len() > 0 {
            let k = choose|k: int|
                0 <= k < b.agents.len() && by_agent::label_of(#[trigger] b.agents[k]) == label;
            assert(by_agent::label_of(a.agents[k]) == label);
        }
    }
}

proof fn lemma_checkout_groups(
    list: Seq<by_agent::Mention<Text>>,
    other: Seq<by_agent::Mention<Text>>,
    a: Seq<model::CheckoutView>,
    b: Seq<model::CheckoutView>,
)
    requires
        mentions_alike(list, other),
        checkouts_alike(a, b),
    ensures
        mentions_alike(
            by_agent::checkout_groups(list, a),
            by_agent::checkout_groups(other, b),
        ),
    decreases a.len(),
{
    if a.len() > 0 {
        lemma_fewer_checkouts(a, b);
        lemma_checkout_groups(list, other, a.drop_last(), b.drop_last());
        lemma_mentions(a.last(), b.last());
        lemma_remembered(
            by_agent::checkout_groups(list, a.drop_last()),
            by_agent::checkout_groups(other, b.drop_last()),
            by_agent::mentions(a.last()),
            by_agent::mentions(b.last()),
        );
    }
}

proof fn lemma_group_order(a: Seq<model::RepoView>, b: Seq<model::RepoView>)
    requires
        repos_alike(a, b),
    ensures
        mentions_alike(by_agent::group_order(a), by_agent::group_order(b)),
    decreases a.len(),
{
    if a.len() > 0 {
        lemma_fewer_repos(a, b);
        lemma_group_order(a.drop_last(), b.drop_last());
        lemma_checkout_groups(
            by_agent::group_order(a.drop_last()),
            by_agent::group_order(b.drop_last()),
            a.last().checkouts,
            b.last().checkouts,
        );
    }
}

proof fn lemma_checkouts_for(
    a: Seq<model::CheckoutView>,
    b: Seq<model::CheckoutView>,
    label: Text,
)
    requires
        checkouts_alike(a, b),
    ensures
        checkouts_alike(by_agent::checkouts_for(a, label), by_agent::checkouts_for(b, label)),
    decreases a.len(),
{
    reveal(Seq::filter);
    if a.len() > 0 {
        lemma_fewer_checkouts(a, b);
        lemma_checkouts_for(a.drop_last(), b.drop_last(), label);
        lemma_mentions(a.last(), b.last());
        let alike = |a: model::CheckoutView, b: model::CheckoutView| checkout_alike(a, b);
        assert(by_agent::belongs(a.last(), label) == by_agent::belongs(b.last(), label));
        assert(order::pairwise(
            by_agent::checkouts_for(a, label),
            by_agent::checkouts_for(b, label),
            alike,
        ));
    }
}

proof fn lemma_repos_for(
    a: Seq<model::RepoView>,
    b: Seq<model::RepoView>,
    label: Text,
    patterns: Seq<Text>,
)
    requires
        repos_alike(a, b),
    ensures
        repos_alike(
            by_agent::repos_for(a, label, patterns),
            by_agent::repos_for(b, label, patterns),
        ),
    decreases a.len(),
{
    if a.len() > 0 {
        lemma_fewer_repos(a, b);
        lemma_repos_for(a.drop_last(), b.drop_last(), label, patterns);
        let (c, d) = (a.last(), b.last());
        lemma_checkouts_for(c.checkouts, d.checkouts, label);
        let x = by_agent::checkouts_for(c.checkouts, label);
        let y = by_agent::checkouts_for(d.checkouts, label);
        lemma_checkouts(x, y);
        let p = rollup::rolled(model::RepoView { checkouts: x, ..c }, patterns);
        let q = rollup::rolled(model::RepoView { checkouts: y, ..d }, patterns);
        assert(repo_alike(p, q));
        let alike = |a: model::RepoView, b: model::RepoView| repo_alike(a, b);
        assert(order::pairwise(
            by_agent::repos_for(a, label, patterns),
            by_agent::repos_for(b, label, patterns),
            alike,
        ));
    }
}

pub open spec fn group_alike(a: by_agent::AgentGroupView, b: by_agent::AgentGroupView) -> bool {
    &&& a.label == b.label
    &&& a.commits == b.commits
    &&& a.churn == b.churn
    &&& repos_alike(a.repos, b.repos)
}

pub open spec fn groups_alike(
    a: Seq<by_agent::AgentGroupView>,
    b: Seq<by_agent::AgentGroupView>,
) -> bool {
    order::pairwise(
        a,
        b,
        |a: by_agent::AgentGroupView, b: by_agent::AgentGroupView| group_alike(a, b),
    )
}

proof fn lemma_groups(a: Seq<model::RepoView>, b: Seq<model::RepoView>, patterns: Seq<Text>)
    requires
        repos_alike(a, b),
    ensures
        groups_alike(by_agent::groups_of(a, patterns), by_agent::groups_of(b, patterns)),
{
    lemma_group_order(a, b);
    let (c, d) = (by_agent::group_order(a), by_agent::group_order(b));
    let (x, y) = (by_agent::groups_of(a, patterns), by_agent::groups_of(b, patterns));
    assert forall|i: int| 0 <= i < x.len() implies group_alike(#[trigger] x[i], y[i]) by {
        assert(mention_alike(c[i], d[i]));
        lemma_repos_for(a, b, c[i].label, patterns);
        lemma_repos(
            by_agent::repos_for(a, c[i].label, patterns),
            by_agent::repos_for(b, c[i].label, patterns),
        );
    }
}

proof fn lemma_grouped_total(
    a: Seq<by_agent::AgentGroupView>,
    b: Seq<by_agent::AgentGroupView>,
)
    requires
        groups_alike(a, b),
    ensures
        by_agent::grouped_total(a) == by_agent::grouped_total(b),
    decreases a.len(),
{
    if a.len() > 0 {
        lemma_shorter(
            a,
            b,
            |a: by_agent::AgentGroupView, b: by_agent::AgentGroupView| group_alike(a, b),
        );
        lemma_grouped_total(a.drop_last(), b.drop_last());
    }
}

proof fn lemma_shared_checkouts(
    count: usize,
    a: Seq<model::CheckoutView>,
    b: Seq<model::CheckoutView>,
)
    requires
        checkouts_alike(a, b),
    ensures
        by_agent::shared_checkouts(count, a) == by_agent::shared_checkouts(count, b),
    decreases a.len(),
{
    if a.len() > 0 {
        lemma_fewer_checkouts(a, b);
        lemma_shared_checkouts(count, a.drop_last(), b.drop_last());
    }
}

proof fn lemma_shared_total(a: Seq<model::RepoView>, b: Seq<model::RepoView>)
    requires
        repos_alike(a, b),
    ensures
        by_agent::shared_total(a) == by_agent::shared_total(b),
    decreases a.len(),
{
    if a.len() > 0 {
        lemma_fewer_repos(a, b);
        lemma_shared_total(a.drop_last(), b.drop_last());
        lemma_shared_checkouts(
            by_agent::shared_total(a.drop_last()),
            a.last().checkouts,
            b.last().checkouts,
        );
    }
}

proof fn lemma_grouping(a: model::DigestView, b: model::DigestView, patterns: Seq<Text>)
    requires
        digests_alike(a, b),
    ensures
        groups_alike(
            by_agent::grouping_of(a, patterns).groups,
            by_agent::grouping_of(b, patterns).groups,
        ),
        by_agent::grouping_of(a, patterns).warning() == by_agent::grouping_of(
            b,
            patterns,
        ).warning(),
{
    lemma_groups(a.repos, b.repos, patterns);
    lemma_grouped_total(
        by_agent::groups_of(a.repos, patterns),
        by_agent::groups_of(b.repos, patterns),
    );
    lemma_shared_total(a.repos, b.repos);
    lemma_repos(a.repos, b.repos);
}

// ---------------------------------------------------------------------------
// What is written of sections
// ---------------------------------------------------------------------------

pub open spec fn section_alike(a: render::SectionView, b: render::SectionView) -> bool {
    &&& a.heading == b.heading
    &&& a.stats == b.stats
    &&& repos_alike(a.repos, b.repos)
}

pub open spec fn sections_alike(
    a: Seq<render::SectionView>,
    b: Seq<render::SectionView>,
) -> bool {
    order::pairwise(a, b, |a: render::SectionView, b: render::SectionView| section_alike(a, b))
}

proof fn lemma_fewer_sections(a: Seq<render::SectionView>, b: Seq<render::SectionView>)
    requires
        sections_alike(a, b),
        a.len() > 0,
    ensures
        sections_alike(a.drop_last(), b.drop_last()),
        section_alike(a.last(), b.last()),
{
    lemma_shorter(a, b, |a: render::SectionView, b: render::SectionView| section_alike(a, b));
}

proof fn lemma_laid_out(
    a: model::DigestView,
    b: model::DigestView,
    config: config::ConfigView,
    other: config::ConfigView,
)
    requires
        digests_alike(a, b),
        configs_alike(config, other),
    ensures
        sections_alike(
            render::sections_of(a, render::grouping_asked(a, config)),
            render::sections_of(b, render::grouping_asked(b, other)),
        ),
{
    let c = render::sections_of(a, render::grouping_asked(a, config));
    let d = render::sections_of(b, render::grouping_asked(b, other));
    if config.by_agent {
        let patterns = config::tidied(config.ignore);
        lemma_grouping(a, b, patterns);
        let x = by_agent::grouping_of(a, patterns).groups;
        let y = by_agent::grouping_of(b, patterns).groups;
        assert forall|i: int| 0 <= i < c.len() implies section_alike(#[trigger] c[i], d[i]) by {
            assert(group_alike(x[i], y[i]));
            lemma_sorted_repos(x[i].repos, y[i].repos);
        }
    } else {
        lemma_sorted_repos(a.repos, b.repos);
        assert forall|i: int| 0 <= i < c.len() implies section_alike(#[trigger] c[i], d[i]) by {
        }
    }
}

proof fn lemma_sections(a: Seq<render::SectionView>, b: Seq<render::SectionView>)
    requires
        sections_alike(a, b),
    ensures
        render::section_total(a) == render::section_total(b),
        render::any_busy(a) == render::any_busy(b),
        render::no_headings(a) == render::no_headings(b),
        repos_alike(render::all_quiet(a), render::all_quiet(b)),
    decreases a.len(),
{
    assert forall|i: int| 0 <= i < a.len() implies {
        &&& (#[trigger] a[i]).heading == b[i].heading
        &&& model::busy_among(a[i].repos).len() == model::busy_among(b[i].repos).len()
    } by {
        assert(section_alike(a[i], b[i]));
        lemma_repos(a[i].repos, b[i].repos);
    }
    assert(render::any_busy(a) == render::any_busy(b)) by {
        if render::any_busy(a) {
            let i = choose|i: int|
                0 <= i < a.len() && model::busy_among((#[trigger] a[i]).repos).len() > 0;
            assert(model::busy_among(b[i].repos).len() > 0);
        }
        if render::any_busy(b) {
            let i = choose|i: int|
                0 <= i < b.len() && model::busy_among((#[trigger] b[i]).repos).len() > 0;
            assert(model::busy_among(a[i].repos).len() > 0);
        }
    }
    assert(render::no_headings(a) == render::no_headings(b)) by {
        if render::no_headings(a) {
            assert forall|i: int| 0 <= i < b.len() implies (#[trigger] b[i]).heading is None by {
                assert(a[i].heading == b[i].heading);
            }
        }
    }
    if a.len() > 0 {
        lemma_fewer_sections(a, b);
        lemma_sections(a.drop_last(), b.drop_last());
        lemma_repos(a.last().repos, b.last().repos);
        let alike = |a: model::RepoView, b: model::RepoView| repo_alike(a, b);
        assert(order::pairwise(render::all_quiet(a), render::all_quiet(b), alike));
    }
}

proof fn lemma_markdown_quiet(a: Seq<model::RepoView>, b: Seq<model::RepoView>)
    requires
        repos_alike(a, b),
    ensures
        markdown::quiet_text(a) == markdown::quiet_text(b),
{
    assert(markdown::names_of(a) =~= markdown::names_of(b)) by {
        assert forall|i: int| 0 <= i < a.len() implies (#[trigger] a[i]).name == b[i].name by {
            assert(repo_alike(a[i], b[i]));
        }
    }
}

proof fn lemma_slack_quiet(a: Seq<model::RepoView>, b: Seq<model::RepoView>)
    requires
        repos_alike(a, b),
    ensures
        slack::quiet_text(a) == slack::quiet_text(b),
{
    assert(slack::names_of(a) =~= slack::names_of(b)) by {
        assert forall|i: int| 0 <= i < a.len() implies (#[trigger] a[i]).name == b[i].name by {
            assert(repo_alike(a[i], b[i]));
        }
    }
}

proof fn lemma_markdown_sections(
    a: Seq<render::SectionView>,
    b: Seq<render::SectionView>,
    config: config::ConfigView,
    other: config::ConfigView,
    with_date: bool,
    list: bool,
)
    requires
        sections_alike(a, b),
        configs_alike(config, other),
    ensures
        markdown::all_sections_text(a, config, with_date, list) == markdown::all_sections_text(
            b,
            other,
            with_date,
            list,
        ),
    decreases a.len(),
{
    if a.len() > 0 {
        lemma_fewer_sections(a, b);
        lemma_markdown_sections(a.drop_last(), b.drop_last(), config, other, with_date, list);
        let (c, d) = (a.last().repos, b.last().repos);
        lemma_repos(c, d);
        lemma_markdown_repos(
            model::busy_among(c),
            model::busy_among(d),
            config,
            other,
            with_date,
            list,
        );
        lemma_markdown_quiet(model::quiet_among(c), model::quiet_among(d));
        reveal(markdown::section_text);
    }
}

proof fn lemma_slack_sections(
    a: Seq<render::SectionView>,
    b: Seq<render::SectionView>,
    config: config::ConfigView,
    other: config::ConfigView,
    with_date: bool,
    list: bool,
)
    requires
        sections_alike(a, b),
        configs_alike(config, other),
    ensures
        slack::all_sections_text(a, config, with_date, list) == slack::all_sections_text(
            b,
            other,
            with_date,
            list,
        ),
    decreases a.len(),
{
    if a.len() > 0 {
        lemma_fewer_sections(a, b);
        lemma_slack_sections(a.drop_last(), b.drop_last(), config, other, with_date, list);
        let (c, d) = (a.last().repos, b.last().repos);
        lemma_repos(c, d);
        lemma_slack_repos(
            model::busy_among(c),
            model::busy_among(d),
            config,
            other,
            with_date,
            list,
        );
        lemma_slack_quiet(model::quiet_among(c), model::quiet_among(d));
        reveal(slack::section_text);
    }
}

proof fn lemma_text_quiet(a: Seq<model::RepoView>, b: Seq<model::RepoView>)
    requires
        repos_alike(a, b),
    ensures
        text::quiet_text(a) == text::quiet_text(b),
{
    lemma_repos(a, b);
    let (c, d) = (model::quiet_among(a), model::quiet_among(b));
    assert(text::names_of(c) =~= text::names_of(d)) by {
        assert forall|i: int| 0 <= i < c.len() implies (#[trigger] c[i]).name == d[i].name by {
            assert(repo_alike(c[i], d[i]));
        }
    }
}

proof fn lemma_text_sections(
    a: Seq<render::SectionView>,
    b: Seq<render::SectionView>,
    config: config::ConfigView,
    other: config::ConfigView,
    with_date: bool,
    list: bool,
)
    requires
        sections_alike(a, b),
        configs_alike(config, other),
    ensures
        text::all_sections_text(a, config, with_date, list) == text::all_sections_text(
            b,
            other,
            with_date,
            list,
        ),
    decreases a.len(),
{
    if a.len() > 0 {
        lemma_fewer_sections(a, b);
        lemma_text_sections(a.drop_last(), b.drop_last(), config, other, with_date, list);
        let (c, d) = (a.last().repos, b.last().repos);
        lemma_repos(c, d);
        lemma_text_repos(
            model::busy_among(c),
            model::busy_among(d),
            config,
            other,
            with_date,
            list,
        );
        lemma_text_quiet(c, d);
        reveal(text::section_text);
    }
}

proof fn lemma_html_quiet(a: Seq<model::RepoView>, b: Seq<model::RepoView>)
    requires
        repos_alike(a, b),
    ensures
        html::quiet_text(a) == html::quiet_text(b),
{
    lemma_repos(a, b);
    let (c, d) = (model::quiet_among(a), model::quiet_among(b));
    assert(text::names_of(c) =~= text::names_of(d)) by {
        assert forall|i: int| 0 <= i < c.len() implies (#[trigger] c[i]).name == d[i].name by {
            assert(repo_alike(c[i], d[i]));
        }
    }
}

proof fn lemma_html_sections(
    a: Seq<render::SectionView>,
    b: Seq<render::SectionView>,
    config: config::ConfigView,
    other: config::ConfigView,
    with_date: bool,
    list: bool,
)
    requires
        sections_alike(a, b),
        configs_alike(config, other),
    ensures
        html::all_sections_text(a, config, with_date, list) == html::all_sections_text(
            b,
            other,
            with_date,
            list,
        ),
    decreases a.len(),
{
    if a.len() > 0 {
        lemma_fewer_sections(a, b);
        lemma_html_sections(a.drop_last(), b.drop_last(), config, other, with_date, list);
        let (c, d) = (a.last().repos, b.last().repos);
        lemma_repos(c, d);
        lemma_html_repos(
            model::busy_among(c),
            model::busy_among(d),
            config,
            other,
            with_date,
            list,
        );
        lemma_html_quiet(c, d);
        reveal(html::section_text);
    }
}

proof fn lemma_markdown(
    a: model::DigestView,
    b: model::DigestView,
    config: config::ConfigView,
    other: config::ConfigView,
)
    requires
        digests_alike(a, b),
        configs_alike(config, other),
    ensures
        markdown::digest_text(a, config, render::grouping_asked(a, config)) == markdown::digest_text(
            b,
            other,
            render::grouping_asked(b, other),
        ),
{
    let c = render::sections_of(a, render::grouping_asked(a, config));
    let d = render::sections_of(b, render::grouping_asked(b, other));
    lemma_grouping(a, b, config::tidied(config.ignore));
    lemma_laid_out(a, b, config, other);
    lemma_sections(c, d);
    lemma_repos(a.repos, b.repos);
    lemma_dates(a, b);
    lemma_markdown_sections(
        c,
        d,
        config,
        other,
        render::needs_dates(a),
        !(a.window.source is Rollup),
    );
    lemma_markdown_quiet(render::all_quiet(c), render::all_quiet(d));
    assert(markdown::body_text(a, config, c) == markdown::body_text(b, other, d));
    assert(markdown::closing_text(c) == markdown::closing_text(d));
    assert(markdown::header_text(a) == markdown::header_text(b));
}

proof fn lemma_slack(
    a: model::DigestView,
    b: model::DigestView,
    config: config::ConfigView,
    other: config::ConfigView,
)
    requires
        digests_alike(a, b),
        configs_alike(config, other),
    ensures
        slack::digest_text(a, config, render::grouping_asked(a, config)) == slack::digest_text(
            b,
            other,
            render::grouping_asked(b, other),
        ),
{
    let c = render::sections_of(a, render::grouping_asked(a, config));
    let d = render::sections_of(b, render::grouping_asked(b, other));
    lemma_grouping(a, b, config::tidied(config.ignore));
    lemma_laid_out(a, b, config, other);
    lemma_sections(c, d);
    lemma_repos(a.repos, b.repos);
    lemma_dates(a, b);
    lemma_slack_sections(
        c,
        d,
        config,
        other,
        render::needs_dates(a),
        !(a.window.source is Rollup),
    );
    lemma_slack_quiet(render::all_quiet(c), render::all_quiet(d));
    assert(slack::body_text(a, config, c) == slack::body_text(b, other, d));
    assert(slack::closing_text(c) == slack::closing_text(d));
    assert(slack::header_text(a, render::grouping_asked(a, config)) == slack::header_text(
        b,
        render::grouping_asked(b, other),
    ));
}

proof fn lemma_text(
    a: model::DigestView,
    b: model::DigestView,
    config: config::ConfigView,
    other: config::ConfigView,
)
    requires
        digests_alike(a, b),
        configs_alike(config, other),
    ensures
        text::report_text(a, config) == text::report_text(b, other),
{
    let c = render::sections_of(a, render::grouping_asked(a, config));
    let d = render::sections_of(b, render::grouping_asked(b, other));
    lemma_grouping(a, b, config::tidied(config.ignore));
    lemma_laid_out(a, b, config, other);
    lemma_sections(c, d);
    lemma_repos(a.repos, b.repos);
    lemma_sorted_repos(a.repos, b.repos);
    lemma_dates(a, b);
    lemma_text_sections(
        c,
        d,
        config,
        other,
        render::needs_dates(a),
        !(a.window.source is Rollup),
    );
    lemma_text_quiet(render::repos_sorted(a.repos), render::repos_sorted(b.repos));
    assert(text::body_text(a, config, c) == text::body_text(b, other, d));
    assert(text::closing_text(a, c) == text::closing_text(b, d));
    assert(text::header_text(a) == text::header_text(b));
}

proof fn lemma_html(
    a: model::DigestView,
    b: model::DigestView,
    config: config::ConfigView,
    other: config::ConfigView,
)
    requires
        digests_alike(a, b),
        configs_alike(config, other),
    ensures
        html::digest_text(a, config) == html::digest_text(b, other),
{
    let c = render::sections_of(a, render::grouping_asked(a, config));
    let d = render::sections_of(b, render::grouping_asked(b, other));
    lemma_grouping(a, b, config::tidied(config.ignore));
    lemma_laid_out(a, b, config, other);
    lemma_sections(c, d);
    lemma_repos(a.repos, b.repos);
    lemma_sorted_repos(a.repos, b.repos);
    lemma_dates(a, b);
    lemma_html_sections(
        c,
        d,
        config,
        other,
        render::needs_dates(a),
        !(a.window.source is Rollup),
    );
    lemma_html_quiet(render::repos_sorted(a.repos), render::repos_sorted(b.repos));
    assert(html::body_text(a, config, c) == html::body_text(b, other, d));
    assert(html::closing_text(a, c) == html::closing_text(b, d));
    assert(html::header_text(a) == html::header_text(b));
}

proof fn lemma_rendered(
    a: model::DigestView,
    b: model::DigestView,
    config: config::ConfigView,
    other: config::ConfigView,
)
    requires
        digests_alike(a, b),
        configs_alike(config, other),
    ensures
        render::rendered(a, config) == render::rendered(b, other),
{
    match config.format {
        Format::Text => lemma_text(a, b, config, other),
        Format::Markdown => lemma_markdown(a, b, config, other),
        Format::Slack => lemma_slack(a, b, config, other),
        Format::Html => lemma_html(a, b, config, other),
        Format::Json => {},
    }
}

/// An agent's session id is withheld from every rendering meant for a reader:
/// two digests that differ in nothing but session ids render the same, whatever
/// the configuration asks for.
pub proof fn law_session_ids_are_not_shown(
    a: model::DigestView,
    b: model::DigestView,
    config: config::ConfigView,
)
    requires
        digests_alike(a, b),
    ensures
        render::rendered(a, config) == render::rendered(b, config),
{
    lemma_rendered(a, b, config, config);
}

proof fn lemma_alike_itself(digest: model::DigestView)
    ensures
        digests_alike(digest, digest),
{
    assert forall|r: int| 0 <= r < digest.repos.len() implies repo_alike(
        #[trigger] digest.repos[r],
        digest.repos[r],
    ) by {
        let checkouts = digest.repos[r].checkouts;
        assert forall|c: int| 0 <= c < checkouts.len() implies checkout_alike(
            #[trigger] checkouts[c],
            checkouts[c],
        ) by {
            let agents = checkouts[c].agents;
            assert forall|k: int| 0 <= k < agents.len() implies agents_alike(
                #[trigger] agents[k],
                agents[k],
            ) by {}
            let workspaces = checkouts[c].workspaces;
            assert forall|w: int| 0 <= w < workspaces.len() implies workspaces_alike(
                #[trigger] workspaces[w],
                workspaces[w],
            ) by {
                let agents = workspaces[w].agents;
                assert forall|k: int| 0 <= k < agents.len() implies agents_alike(
                    #[trigger] agents[k],
                    agents[k],
                ) by {}
            }
        }
    }
}

/// Asking for a failing exit status on an empty digest changes nothing that is
/// rendered.
pub proof fn law_failing_if_empty_changes_no_output(
    digest: model::DigestView,
    config: config::ConfigView,
    fail_if_empty: bool,
)
    ensures
        render::rendered(digest, config) == render::rendered(
            digest,
            (config::ConfigView { fail_if_empty, ..config }),
        ),
{
    lemma_alike_itself(digest);
    lemma_rendered(digest, digest, config, (config::ConfigView { fail_if_empty, ..config }));
}

} // verus!
