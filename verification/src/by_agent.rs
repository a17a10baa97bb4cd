//! Regrouping a digest by agent.
//!
//! Grouping by repository is the default. Grouping by agent interleaves
//! unrelated projects, and a commit cannot be split: work in a checkout that two
//! agents share counts under both, and so does a commit visible from two
//! checkouts of one repository that are in different groups. The per-agent
//! totals can therefore add up to more than the digest's own, and the
//! difference is measured and said.
//!
//! Nothing here collects anything. It is a regrouping of a digest that has
//! already been built.

use vstd::prelude::*;

use crate::config::Ignored;
use crate::model;
use crate::model::{AgentRef, CheckoutDigest, Churn, Digest, RepoDigest, Text};
use crate::render;
use crate::rollup;
use crate::strings;

verus! {

/// The label for work no agent was placed in. A sentence rather than a name, so
/// it cannot be mistaken for an agent called "unattributed".
pub const UNATTRIBUTED: &'static str = "no agent reported";

/// One agent, and the work placed in the checkouts they occupied.
#[derive(Debug, PartialEq, Eq)]
pub struct AgentGroup {
    /// `None` is the group for checkouts no agent was placed in.
    pub agent: Option<AgentRef>,
    /// What to call this group.
    pub label: String,
    /// The repositories this agent touched, each carrying only the checkouts
    /// the agent was placed in, with the totals worked out over those.
    pub repos: Vec<RepoDigest>,
    pub commits: usize,
    pub churn: Churn,
}

#[verifier::ext_equal]
pub struct AgentGroupView {
    pub agent: Option<AgentRef<Text>>,
    pub label: Text,
    pub repos: Seq<model::RepoView>,
    pub commits: usize,
    pub churn: Churn,
}

impl View for AgentGroup {
    type V = AgentGroupView;

    open spec fn view(&self) -> AgentGroupView {
        AgentGroupView {
            agent: strings::view_of(self.agent),
            label: self.label@,
            repos: strings::views(self.repos@),
            commits: self.commits,
            churn: self.churn,
        }
    }
}

/// A digest regrouped by agent, and what is not reconcilable about it.
#[derive(Debug, PartialEq, Eq)]
pub struct Grouping {
    pub groups: Vec<AgentGroup>,
    /// How many checkouts had more than one agent placed in them.
    pub shared: usize,
    /// How many more commits the per-agent totals add up to than the digest's
    /// own.
    pub double_counted: usize,
}

#[verifier::ext_equal]
pub struct GroupingView {
    pub groups: Seq<AgentGroupView>,
    pub shared: usize,
    pub double_counted: usize,
}

impl View for Grouping {
    type V = GroupingView;

    open spec fn view(&self) -> GroupingView {
        GroupingView {
            groups: strings::views(self.groups@),
            shared: self.shared,
            double_counted: self.double_counted,
        }
    }
}

// ---------------------------------------------------------------------------
// What a grouping is
// ---------------------------------------------------------------------------

/// A group that a checkout belongs to: its label, and the agent it is named
/// after.
#[derive(Debug, PartialEq, Eq)]
pub struct Mention<T = String> {
    pub label: T,
    pub agent: Option<AgentRef<T>>,
}

impl View for Mention {
    type V = Mention<Text>;

    open spec fn view(&self) -> Mention<Text> {
        Mention { label: self.label@, agent: strings::view_of(self.agent) }
    }
}

/// The label of an agent's group.
pub open spec fn label_of(agent: AgentRef<Text>) -> Text {
    match agent.display() {
        Some(name) => name,
        None => UNATTRIBUTED@,
    }
}

pub open spec fn mention_of(agent: AgentRef<Text>) -> Mention<Text> {
    match agent.display() {
        Some(name) => Mention { label: name, agent: Some(agent) },
        None => Mention { label: UNATTRIBUTED@, agent: None },
    }
}

/// The groups a checkout belongs to.
pub open spec fn mentions(checkout: model::CheckoutView) -> Seq<Mention<Text>> {
    if checkout.agents.len() == 0 {
        seq![Mention { label: UNATTRIBUTED@, agent: None }]
    } else {
        Seq::new(checkout.agents.len(), |i: int| mention_of(checkout.agents[i]))
    }
}

pub open spec fn has_label(list: Seq<Mention<Text>>, label: Text) -> bool {
    exists|i: int| 0 <= i < list.len() && (#[trigger] list[i]).label == label
}

/// A list of groups with one more mentioned, which adds nothing where its label
/// is already there.
pub open spec fn remembered(list: Seq<Mention<Text>>, mention: Mention<Text>) -> Seq<
    Mention<Text>,
> {
    if has_label(list, mention.label) {
        list
    } else {
        list.push(mention)
    }
}

pub open spec fn all_remembered(list: Seq<Mention<Text>>, more: Seq<Mention<Text>>) -> Seq<
    Mention<Text>,
>
    decreases more.len(),
{
    if more.len() == 0 {
        list
    } else {
        remembered(all_remembered(list, more.drop_last()), more.last())
    }
}

/// The groups of these checkouts on top of those already listed, in the order
/// in which they are first mentioned.
pub open spec fn checkout_groups(
    list: Seq<Mention<Text>>,
    checkouts: Seq<model::CheckoutView>,
) -> Seq<Mention<Text>>
    decreases checkouts.len(),
{
    if checkouts.len() == 0 {
        list
    } else {
        all_remembered(
            checkout_groups(list, checkouts.drop_last()),
            mentions(checkouts.last()),
        )
    }
}

/// The groups of a digest, in the order in which they are first mentioned.
pub open spec fn group_order(repos: Seq<model::RepoView>) -> Seq<Mention<Text>>
    decreases repos.len(),
{
    if repos.len() == 0 {
        Seq::empty()
    } else {
        checkout_groups(group_order(repos.drop_last()), repos.last().checkouts)
    }
}

/// Whether a checkout belongs to a group.
pub open spec fn belongs(checkout: model::CheckoutView, label: Text) -> bool {
    if checkout.agents.len() == 0 {
        label == UNATTRIBUTED@
    } else {
        exists|i: int|
            0 <= i < checkout.agents.len() && label_of(#[trigger] checkout.agents[i]) == label
    }
}

pub open spec fn checkouts_for(checkouts: Seq<model::CheckoutView>, label: Text) -> Seq<
    model::CheckoutView,
> {
    checkouts.filter(|checkout: model::CheckoutView| belongs(checkout, label))
}

/// The repositories one group covers, each with the checkouts that belong to it
/// and totalled over exactly those.
pub open spec fn repos_for(
    repos: Seq<model::RepoView>,
    label: Text,
    patterns: Seq<Text>,
) -> Seq<model::RepoView>
    decreases repos.len(),
{
    if repos.len() == 0 {
        Seq::empty()
    } else {
        let before = repos_for(repos.drop_last(), label, patterns);
        let checkouts = checkouts_for(repos.last().checkouts, label);
        if checkouts.len() == 0 {
            before
        } else {
            before.push(
                rollup::rolled(model::RepoView { checkouts, ..repos.last() }, patterns),
            )
        }
    }
}

pub open spec fn group_for(
    repos: Seq<model::RepoView>,
    mention: Mention<Text>,
    patterns: Seq<Text>,
) -> AgentGroupView {
    let covered = repos_for(repos, mention.label, patterns);
    AgentGroupView {
        agent: mention.agent,
        label: mention.label,
        repos: covered,
        commits: model::commit_total(covered),
        churn: model::churn_total(covered),
    }
}

pub open spec fn groups_of(repos: Seq<model::RepoView>, patterns: Seq<Text>) -> Seq<
    AgentGroupView,
> {
    Seq::new(
        group_order(repos).len(),
        |i: int| group_for(repos, group_order(repos)[i], patterns),
    )
}

/// The commit counts of the groups added up, in machine words.
pub open spec fn grouped_total(groups: Seq<AgentGroupView>) -> usize
    decreases groups.len(),
{
    if groups.len() == 0 {
        0
    } else {
        grouped_total(groups.drop_last()).wrapping_add(groups.last().commits)
    }
}

/// How many of the checkouts hold more than one agent, on top of a count.
pub open spec fn shared_checkouts(count: usize, checkouts: Seq<model::CheckoutView>) -> usize
    decreases checkouts.len(),
{
    if checkouts.len() == 0 {
        count
    } else {
        let before = shared_checkouts(count, checkouts.drop_last());
        if checkouts.last().agents.len() > 1 {
            before.wrapping_add(1)
        } else {
            before
        }
    }
}

pub open spec fn shared_total(repos: Seq<model::RepoView>) -> usize
    decreases repos.len(),
{
    if repos.len() == 0 {
        0
    } else {
        shared_checkouts(shared_total(repos.drop_last()), repos.last().checkouts)
    }
}

pub open spec fn grouping_of(digest: model::DigestView, patterns: Seq<Text>) -> GroupingView {
    let groups = groups_of(digest.repos, patterns);
    let grouped = grouped_total(groups);
    let own = model::commit_total(digest.repos);
    GroupingView {
        groups,
        shared: shared_total(digest.repos),
        double_counted: if grouped > own {
            (grouped - own) as usize
        } else {
            0
        },
    }
}

// ---------------------------------------------------------------------------
// Regrouping
// ---------------------------------------------------------------------------

fn mention(agent: &AgentRef) -> (out: Mention)
    ensures
        out@ == mention_of(agent@),
{
    match agent.display() {
        Some(name) => Mention { label: name.to_string(), agent: Some(agent.clone()) },
        None => Mention { label: UNATTRIBUTED.to_string(), agent: None },
    }
}

fn remember(order: &mut Vec<Mention>, mention: Mention)
    ensures
        strings::views(final(order)@) == remembered(strings::views(old(order)@), mention@),
{
    broadcast use strings::group_lists;

    let ghost list = strings::views(order@);
    for i in 0..order.len()
        invariant
            list == strings::views(order@),
            order@ == old(order)@,
            forall|j: int| 0 <= j < i ==> (#[trigger] list[j]).label != mention@.label,
    {
        assert(list[i as int] == order@[i as int]@);
        if strings::same(order[i].label.as_str(), mention.label.as_str()) {
            return;
        }
    }
    order.push(mention);
}

fn remember_checkout(order: &mut Vec<Mention>, checkout: &CheckoutDigest)
    ensures
        strings::views(final(order)@) == all_remembered(
            strings::views(old(order)@),
            mentions(checkout@),
        ),
{
    broadcast use strings::group_lists;

    let ghost list = strings::views(order@);
    let ghost all = mentions(checkout@);
    if checkout.agents.len() == 0 {
        remember(order, Mention { label: UNATTRIBUTED.to_string(), agent: None });
        assert(all.drop_last() =~= Seq::empty());
        assert(all_remembered(list, all.drop_last()) == list);
        return;
    }
    for i in 0..checkout.agents.len()
        invariant
            all == mentions(checkout@),
            checkout@.agents.len() > 0,
            strings::views(order@) == all_remembered(list, all.take(i as int)),
    {
        broadcast use strings::group_lists;

        assert(all.take(i as int).push(all[i as int]) == all.take(i + 1));
        remember(order, mention(&checkout.agents[i]));
    }
    assert(all.take(all.len() as int) =~= all);
}

fn order_of(repos: &Vec<RepoDigest>) -> (out: (Vec<Mention>, usize))
    ensures
        strings::views(out.0@) == group_order(strings::views(repos@)),
        out.1 == shared_total(strings::views(repos@)),
{
    broadcast use strings::group_lists;

    let ghost all = strings::views(repos@);
    let mut order: Vec<Mention> = Vec::new();
    let mut shared: usize = 0;
    for i in 0..repos.len()
        invariant
            all == strings::views(repos@),
            strings::views(order@) == group_order(all.take(i as int)),
            shared == shared_total(all.take(i as int)),
    {
        broadcast use strings::group_lists;

        assert(all.take(i as int).push(all[i as int]) == all.take(i + 1));
        let checkouts = &repos[i].checkouts;
        let ghost here = strings::views(checkouts@);
        let ghost list = strings::views(order@);
        let ghost count = shared;
        assert(all[i as int].checkouts == here);
        for j in 0..checkouts.len()
            invariant
                here == strings::views(checkouts@),
                strings::views(order@) == checkout_groups(list, here.take(j as int)),
                shared == shared_checkouts(count, here.take(j as int)),
        {
            broadcast use strings::group_lists;

            assert(here.take(j as int).push(here[j as int]) == here.take(j + 1));
            assert(here[j as int] == checkouts@[j as int]@);
            if checkouts[j].agents.len() > 1 {
                shared = shared.wrapping_add(1);
            }
            remember_checkout(&mut order, &checkouts[j]);
        }
        assert(here.take(here.len() as int) =~= here);
    }
    (order, shared)
}

fn is_in_group(checkout: &CheckoutDigest, label: &str) -> (answer: bool)
    ensures
        answer == belongs(checkout@, label@),
{
    if checkout.agents.len() == 0 {
        return strings::same(label, UNATTRIBUTED);
    }
    for i in 0..checkout.agents.len()
        invariant
            checkout@.agents.len() > 0,
            forall|j: int|
                0 <= j < i ==> label_of(#[trigger] checkout@.agents[j]) != label@,
    {
        assert(checkout@.agents[i as int] == checkout.agents@[i as int]@);
        let name = match checkout.agents[i].display() {
            Some(name) => name,
            None => UNATTRIBUTED,
        };
        if strings::same(name, label) {
            assert(label_of(checkout@.agents[i as int]) == label@);
            return true;
        }
    }
    false
}

fn covered(digest: &Digest, label: &str, ignored: &Ignored) -> (out: Vec<RepoDigest>)
    ensures
        strings::views(out@) == repos_for(digest@.repos, label@, ignored@),
{
    broadcast use strings::group_lists;

    let ghost all = digest@.repos;
    let mut out: Vec<RepoDigest> = Vec::new();
    for i in 0..digest.repos.len()
        invariant
            all == digest@.repos,
            strings::views(out@) == repos_for(all.take(i as int), label@, ignored@),
    {
        broadcast use strings::group_lists;

        assert(all.take(i as int).push(all[i as int]) == all.take(i + 1));
        let repo = &digest.repos[i];
        let ghost here = strings::views(repo.checkouts@);
        let ghost pred = |checkout: model::CheckoutView| belongs(checkout, label@);
        assert(all[i as int] == repo@);
        let mut checkouts: Vec<CheckoutDigest> = Vec::new();
        proof {
            reveal(Seq::filter);
        }
        for j in 0..repo.checkouts.len()
            invariant
                here == strings::views(repo.checkouts@),
                pred == (|checkout: model::CheckoutView| belongs(checkout, label@)),
                strings::views(checkouts@) == here.take(j as int).filter(pred),
        {
            broadcast use strings::group_lists;

            reveal(Seq::filter);
            assert(here.take(j as int).push(here[j as int]) == here.take(j + 1));
            assert(here[j as int] == repo.checkouts@[j as int]@);
            if is_in_group(&repo.checkouts[j], label) {
                checkouts.push(repo.checkouts[j].clone());
            }
        }
        assert(here.take(here.len() as int) =~= here);
        assert(strings::views(checkouts@) == checkouts_for(repo@.checkouts, label@));
        if checkouts.len() > 0 {
            let mut filtered = RepoDigest {
                repo_key: repo.repo_key.clone(),
                name: repo.name.clone(),
                repo_root: repo.repo_root.clone(),
                checkouts,
                commits: repo.commits,
                churn: repo.churn,
                active_days: repo.active_days,
            };
            assert(filtered@ == model::RepoView {
                checkouts: checkouts_for(repo@.checkouts, label@),
                ..repo@
            });
            rollup::rollup(&mut filtered, ignored);
            out.push(filtered);
        }
    }
    out
}

/// Regroups a built digest by agent.
pub fn group(digest: &Digest, ignored: &Ignored) -> (out: Grouping)
    ensures
        out@ == grouping_of(digest@, ignored@),
{
    broadcast use strings::group_lists;

    let (order, shared) = order_of(&digest.repos);
    let ghost all = groups_of(digest@.repos, ignored@);
    let ghost listed = group_order(digest@.repos);
    let mut groups: Vec<AgentGroup> = Vec::new();
    let mut grouped: usize = 0;
    for i in 0..order.len()
        invariant
            listed == group_order(digest@.repos),
            listed == strings::views(order@),
            all == groups_of(digest@.repos, ignored@),
            strings::views(groups@) == all.take(i as int),
            grouped == grouped_total(all.take(i as int)),
    {
        broadcast use strings::group_lists;

        assert(all.take(i as int).push(all[i as int]) == all.take(i + 1));
        let mention = &order[i];
        assert(listed[i as int] == mention@);
        let repos = covered(digest, mention.label.as_str(), ignored);
        let commits = model::total_commits_of(&repos);
        let churn = model::total_churn_of(&repos);
        let entry = AgentGroup {
            agent: strings::clone_option(&mention.agent),
            label: mention.label.clone(),
            repos,
            commits,
            churn,
        };
        assert(entry@ == all[i as int]);
        groups.push(entry);
        grouped = grouped.wrapping_add(commits);
    }
    assert(all.take(all.len() as int) =~= all);
    let double_counted = grouped.saturating_sub(digest.total_commits());
    Grouping { groups, shared, double_counted }
}

// ---------------------------------------------------------------------------
// The caveat
// ---------------------------------------------------------------------------

impl GroupingView {
    pub open spec fn warning(self) -> Text {
        let start = "grouped by agent, which interleaves unrelated projects \u{2014} the default grouping is by repository"@;
        if self.double_counted > 0 {
            start + ". These totals add up to "@ + render::counted(
                self.double_counted as nat,
                "commit"@,
                "commits"@,
            )
                + " more than the digest's, because a commit cannot be split between two agents sharing a checkout, or between two checkouts of one repository in different groups, so it is counted in each"@
        } else if self.shared > 0 {
            start + ". "@ + render::counted(self.shared as nat, "checkout"@, "checkouts"@)
                + " shared with another agent, so those commits are counted under each"@
        } else {
            start
        }
    }
}

impl Grouping {
    /// The sentence every renderer prints under the header: what a reader has to
    /// know before trusting a per-agent number.
    pub fn caveat(&self) -> (out: String)
        ensures
            out@ == self@.warning(),
    {
        let start = "grouped by agent, which interleaves unrelated projects \u{2014} the default grouping is by repository";
        if self.double_counted > 0 {
            strings::cat4(
                start,
                ". These totals add up to ",
                render::quantity(self.double_counted, "commit", "commits").as_str(),
                " more than the digest's, because a commit cannot be split between two agents sharing a checkout, or between two checkouts of one repository in different groups, so it is counted in each",
            )
        } else if self.shared > 0 {
            strings::cat4(
                start,
                ". ",
                render::quantity(self.shared, "checkout", "checkouts").as_str(),
                " shared with another agent, so those commits are counted under each",
            )
        } else {
            start.to_string()
        }
    }
}

// ---------------------------------------------------------------------------
// Laws
// ---------------------------------------------------------------------------

proof fn lemma_remembered_keeps(list: Seq<Mention<Text>>, more: Seq<Mention<Text>>, label: Text)
    requires
        has_label(list, label),
    ensures
        has_label(all_remembered(list, more), label),
    decreases more.len(),
{
    if more.len() > 0 {
        lemma_remembered_keeps(list, more.drop_last(), label);
        let before = all_remembered(list, more.drop_last());
        let k = choose|k: int| 0 <= k < before.len() && (#[trigger] before[k]).label == label;
        assert(remembered(before, more.last())[k].label == label);
    }
}

proof fn lemma_remembered_adds(list: Seq<Mention<Text>>, more: Seq<Mention<Text>>, i: int)
    requires
        0 <= i < more.len(),
    ensures
        has_label(all_remembered(list, more), more[i].label),
    decreases more.len(),
{
    let before = all_remembered(list, more.drop_last());
    let after = remembered(before, more.last());
    if i < more.len() - 1 {
        assert(more.drop_last()[i] == more[i]);
        lemma_remembered_adds(list, more.drop_last(), i);
        let k = choose|k: int|
            0 <= k < before.len() && (#[trigger] before[k]).label == more[i].label;
        assert(after[k].label == more[i].label);
    } else if !has_label(before, more[i].label) {
        assert(after[before.len() as int].label == more[i].label);
    }
}

proof fn lemma_groups_keep(list: Seq<Mention<Text>>, checkouts: Seq<model::CheckoutView>, label: Text)
    requires
        has_label(list, label),
    ensures
        has_label(checkout_groups(list, checkouts), label),
    decreases checkouts.len(),
{
    if checkouts.len() > 0 {
        lemma_groups_keep(list, checkouts.drop_last(), label);
        lemma_remembered_keeps(
            checkout_groups(list, checkouts.drop_last()),
            mentions(checkouts.last()),
            label,
        );
    }
}

proof fn lemma_groups_add(list: Seq<Mention<Text>>, checkouts: Seq<model::CheckoutView>, i: int, label: Text)
    requires
        0 <= i < checkouts.len(),
        belongs(checkouts[i], label),
    ensures
        has_label(checkout_groups(list, checkouts), label),
    decreases checkouts.len(),
{
    let before = checkout_groups(list, checkouts.drop_last());
    if i < checkouts.len() - 1 {
        assert(checkouts.drop_last()[i] == checkouts[i]);
        lemma_groups_add(list, checkouts.drop_last(), i, label);
        lemma_remembered_keeps(before, mentions(checkouts.last()), label);
    } else {
        let here = mentions(checkouts[i]);
        if checkouts[i].agents.len() == 0 {
            assert(here[0].label == label);
            lemma_remembered_adds(before, here, 0);
        } else {
            let agents = checkouts[i].agents;
            let k = choose|k: int| 0 <= k < agents.len() && label_of(#[trigger] agents[k]) == label;
            assert(here[k].label == label);
            lemma_remembered_adds(before, here, k);
        }
    }
}

/// Every checkout of the digest is in the group of every agent placed in it,
/// and a checkout without agents is in a group too: regrouping drops no work.
pub proof fn law_every_checkout_is_in_a_group(
    repos: Seq<model::RepoView>,
    repo: int,
    checkout: int,
    label: Text,
)
    requires
        0 <= repo < repos.len(),
        0 <= checkout < repos[repo].checkouts.len(),
        belongs(repos[repo].checkouts[checkout], label),
    ensures
        has_label(group_order(repos), label),
    decreases repos.len(),
{
    let before = group_order(repos.drop_last());
    if repo < repos.len() - 1 {
        assert(repos.drop_last()[repo] == repos[repo]);
        law_every_checkout_is_in_a_group(repos.drop_last(), repo, checkout, label);
        lemma_groups_keep(before, repos.last().checkouts, label);
    } else {
        lemma_groups_add(before, repos.last().checkouts, checkout, label);
    }
}

/// A checkout always belongs to at least one group.
pub proof fn law_a_checkout_belongs_somewhere(checkout: model::CheckoutView)
    ensures
        exists|label: Text| #[trigger] belongs(checkout, label),
{
    if checkout.agents.len() == 0 {
        assert(belongs(checkout, UNATTRIBUTED@));
    } else {
        let first = checkout.agents[0];
        assert(belongs(checkout, label_of(first)));
    }
}

/// Whether no two of the groups share a label.
pub open spec fn labels_differ(list: Seq<Mention<Text>>) -> bool {
    forall|i: int, j: int|
        0 <= i < j < list.len() ==> (#[trigger] list[i]).label != (#[trigger] list[j]).label
}

proof fn lemma_labels_differ(list: Seq<Mention<Text>>, more: Seq<Mention<Text>>)
    requires
        labels_differ(list),
    ensures
        labels_differ(all_remembered(list, more)),
    decreases more.len(),
{
    if more.len() > 0 {
        lemma_labels_differ(list, more.drop_last());
    }
}

proof fn lemma_checkout_labels_differ(list: Seq<Mention<Text>>, checkouts: Seq<model::CheckoutView>)
    requires
        labels_differ(list),
    ensures
        labels_differ(checkout_groups(list, checkouts)),
    decreases checkouts.len(),
{
    if checkouts.len() > 0 {
        lemma_checkout_labels_differ(list, checkouts.drop_last());
        lemma_labels_differ(
            checkout_groups(list, checkouts.drop_last()),
            mentions(checkouts.last()),
        );
    }
}

/// There is one group for each label: no agent is listed twice.
pub proof fn law_no_two_groups_share_a_label(repos: Seq<model::RepoView>)
    ensures
        labels_differ(group_order(repos)),
    decreases repos.len(),
{
    if repos.len() > 0 {
        law_no_two_groups_share_a_label(repos.drop_last());
        lemma_checkout_labels_differ(group_order(repos.drop_last()), repos.last().checkouts);
    }
}

/// Regrouping counts as the digest does: a repository all of whose checkouts
/// belong to a group has the same totals there as on its own.
pub proof fn law_a_group_counts_as_the_repository_does(
    repo: model::RepoView,
    label: Text,
    patterns: Seq<Text>,
)
    requires
        repo.checkouts.len() > 0,
        forall|i: int|
            0 <= i < repo.checkouts.len() ==> belongs(#[trigger] repo.checkouts[i], label),
    ensures
        repos_for(seq![repo], label, patterns) == seq![rollup::rolled(repo, patterns)],
{
    lemma_all_belong(repo.checkouts, label);
    reveal_with_fuel(repos_for, 2);
    assert(seq![repo].drop_last() =~= Seq::empty());
    assert(repos_for(seq![repo], label, patterns) =~= seq![rollup::rolled(repo, patterns)]);
}

proof fn lemma_all_belong(checkouts: Seq<model::CheckoutView>, label: Text)
    requires
        forall|i: int| 0 <= i < checkouts.len() ==> belongs(#[trigger] checkouts[i], label),
    ensures
        checkouts_for(checkouts, label) == checkouts,
    decreases checkouts.len(),
{
    reveal(Seq::filter);
    if checkouts.len() > 0 {
        let rest = checkouts.drop_last();
        assert forall|i: int| 0 <= i < rest.len() implies belongs(#[trigger] rest[i], label) by {
            assert(rest[i] == checkouts[i]);
        }
        lemma_all_belong(rest, label);
        assert(belongs(checkouts[checkouts.len() - 1], label));
        assert(rest.push(checkouts.last()) =~= checkouts);
    } else {
        assert(checkouts_for(checkouts, label) =~= checkouts);
    }
}

/// A group is the agents of one name: the label that the user gave, else the
/// program; a checkout without agents, and an agent without a name, is in the
/// group for those.
pub proof fn law_a_checkout_is_grouped_by_its_agents(checkout: model::CheckoutView, label: Text)
    ensures
        belongs(checkout, label) <==> {
            ||| checkout.agents.len() == 0 && label == "no agent reported"@
            ||| exists|i: int|
                0 <= i < checkout.agents.len() && ({
                    let agent = #[trigger] checkout.agents[i];
                    let chosen = if agent.name is Some {
                        agent.name
                    } else {
                        agent.program
                    };
                    if chosen is Some && (chosen->0).len() > 0 {
                        label == chosen->0
                    } else {
                        label == "no agent reported"@
                    }
                })
        },
{
    if belongs(checkout, label) && checkout.agents.len() > 0 {
        let i = choose|i: int|
            0 <= i < checkout.agents.len() && label_of(#[trigger] checkout.agents[i]) == label;
        assert(label_of(checkout.agents[i]) == label);
    }
    assert forall|i: int| 0 <= i < checkout.agents.len() implies ({
        let agent = #[trigger] checkout.agents[i];
        let chosen = if agent.name is Some {
            agent.name
        } else {
            agent.program
        };
        label_of(agent) == (if chosen is Some && (chosen->0).len() > 0 {
            chosen->0
        } else {
            "no agent reported"@
        })
    }) by {}
}

/// A group covers the repositories in which it has a checkout, each under its own
/// key, with those checkouts and no others.
pub proof fn law_a_group_covers_its_checkouts(
    repos: Seq<model::RepoView>,
    label: Text,
    patterns: Seq<Text>,
    repo: int,
    checkout: int,
)
    requires
        0 <= repo < repos.len(),
        0 <= checkout < repos[repo].checkouts.len(),
        belongs(repos[repo].checkouts[checkout], label),
    ensures
        exists|k: int|
            0 <= k < repos_for(repos, label, patterns).len() && covers_part(
                #[trigger] repos_for(repos, label, patterns)[k],
                repos[repo],
                repos[repo].checkouts[checkout],
            ),
    decreases repos.len(),
{
    broadcast use vstd::seq_lib::group_filter_ensures;

    let rest = repos.drop_last();
    let before = repos_for(rest, label, patterns);
    let after = repos_for(repos, label, patterns);
    let one = repos[repo].checkouts[checkout];
    if repo < rest.len() {
        assert(rest[repo] == repos[repo]);
        law_a_group_covers_its_checkouts(rest, label, patterns, repo, checkout);
        let k = choose|k: int|
            0 <= k < before.len() && covers_part(#[trigger] before[k], repos[repo], one);
        assert(after[k] == before[k]);
    } else {
        lemma_belonging_is_kept(repos[repo].checkouts, label, checkout);
        assert(checkouts_for(repos[repo].checkouts, label).contains(one));
        assert(covers_part(after[before.len() as int], repos[repo], one));
    }
}

/// Whether a repository of a group is that of the digest, with a given checkout.
pub open spec fn covers_part(
    part: model::RepoView,
    whole: model::RepoView,
    checkout: model::CheckoutView,
) -> bool {
    &&& part.repo_key == whole.repo_key
    &&& part.name == whole.name
    &&& part.repo_root == whole.repo_root
    &&& part.checkouts.contains(checkout)
}

proof fn lemma_belonging_is_kept(checkouts: Seq<model::CheckoutView>, label: Text, i: int)
    requires
        0 <= i < checkouts.len(),
        belongs(checkouts[i], label),
    ensures
        checkouts_for(checkouts, label).contains(checkouts[i]),
    decreases checkouts.len(),
{
    reveal(Seq::filter);
    let rest = checkouts.drop_last();
    let before = checkouts_for(rest, label);
    let after = checkouts_for(checkouts, label);
    if i < rest.len() {
        assert(rest[i] == checkouts[i]);
        lemma_belonging_is_kept(rest, label, i);
        let k = choose|k: int| 0 <= k < before.len() && before[k] == checkouts[i];
        assert(after[k] == checkouts[i]);
    } else {
        assert(after.last() == checkouts[i]);
    }
}

/// Nothing of another group is in a group: every checkout it covers belongs to
/// it and is one of the repository of the same key, and its totals are those of
/// these checkouts alone.
pub proof fn law_a_group_holds_nothing_else(
    repos: Seq<model::RepoView>,
    label: Text,
    patterns: Seq<Text>,
    k: int,
)
    requires
        0 <= k < repos_for(repos, label, patterns).len(),
    ensures
        ({
            let part = repos_for(repos, label, patterns)[k];
            &&& part.checkouts.len() > 0
            &&& exists|r: int|
                0 <= r < repos.len() && (#[trigger] repos[r]).repo_key == part.repo_key && (forall|
                    c: int,
                |
                    0 <= c < part.checkouts.len() ==> belongs(#[trigger] part.checkouts[c], label)
                        && repos[r].checkouts.contains(part.checkouts[c]))
            &&& part.commits == rollup::distinct(rollup::all_commits(part.checkouts)).len() as usize
        }),
    decreases repos.len(),
{
    broadcast use vstd::seq_lib::group_filter_ensures;

    let rest = repos.drop_last();
    let before = repos_for(rest, label, patterns);
    let after = repos_for(repos, label, patterns);
    let part = after[k];
    if k < before.len() {
        assert(after[k] == before[k]);
        law_a_group_holds_nothing_else(rest, label, patterns, k);
        let r = choose|r: int|
            0 <= r < rest.len() && (#[trigger] rest[r]).repo_key == part.repo_key && (forall|
                c: int,
            |
                0 <= c < part.checkouts.len() ==> belongs(#[trigger] part.checkouts[c], label)
                    && rest[r].checkouts.contains(part.checkouts[c]));
        assert(repos[r] == rest[r]);
    } else {
        let r = repos.len() - 1;
        assert(repos[r] == repos.last());
        let belonging = |checkout: model::CheckoutView| belongs(checkout, label);
        assert forall|c: int| 0 <= c < part.checkouts.len() implies belongs(
            #[trigger] part.checkouts[c],
            label,
        ) && repos[r].checkouts.contains(part.checkouts[c]) by {
            assert(part.checkouts == repos[r].checkouts.filter(belonging));
            repos[r].checkouts.lemma_filter_contains_rev(belonging, part.checkouts[c]);
            assert(belonging(part.checkouts[c]));
        }
    }
}

/// A checkout is shared exactly where it has two agents or more; the shared ones
/// are counted, over checkouts and over repositories.
pub proof fn law_shared_checkouts_are_counted(
    repos: Seq<model::RepoView>,
    repo: model::RepoView,
    count: usize,
    checkouts: Seq<model::CheckoutView>,
    checkout: model::CheckoutView,
)
    ensures
        shared_checkouts(count, checkouts.push(checkout)) == shared_checkouts(
            count,
            checkouts,
        ).wrapping_add(
            if checkout.agents.len() >= 2 {
                1
            } else {
                0
            },
        ),
        shared_checkouts(count, Seq::empty()) == count,
        shared_total(repos.push(repo)) == shared_checkouts(shared_total(repos), repo.checkouts),
        shared_total(Seq::empty()) == 0,
{
    assert(checkouts.push(checkout).drop_last() =~= checkouts);
    assert(repos.push(repo).drop_last() =~= repos);
}

/// The commits of the groups are those of each group added up, and what is
/// counted twice is what they exceed the digest by.
pub proof fn law_the_excess_is_what_is_counted_twice(
    digest: model::DigestView,
    patterns: Seq<Text>,
    groups: Seq<AgentGroupView>,
    group: AgentGroupView,
)
    ensures
        grouped_total(groups.push(group)) == grouped_total(groups).wrapping_add(group.commits),
        grouped_total(Seq::empty()) == 0,
        ({
            let found = grouping_of(digest, patterns);
            let own = model::commit_total(digest.repos);
            let grouped = grouped_total(found.groups);
            &&& found.double_counted == 0 <==> grouped <= own
            &&& found.double_counted > 0 ==> own + found.double_counted == grouped
        }),
{
    assert(groups.push(group).drop_last() =~= groups);
}

/// Each group carries the agent and the label it was made for, and the totals of
/// the repositories that it covers.
pub proof fn law_a_group_adds_up_its_repositories(
    repos: Seq<model::RepoView>,
    patterns: Seq<Text>,
    i: int,
)
    requires
        0 <= i < group_order(repos).len(),
    ensures
        groups_of(repos, patterns).len() == group_order(repos).len(),
        ({
            let group = groups_of(repos, patterns)[i];
            &&& group.label == group_order(repos)[i].label
            &&& group.agent == group_order(repos)[i].agent
            &&& group.repos == repos_for(repos, group.label, patterns)
            &&& group.commits == model::commit_total(group.repos)
            &&& group.churn == model::churn_total(group.repos)
        }),
{
}

/// The warning tells how many commits are counted more than once, or how many
/// checkouts are shared, wherever there are any.
pub proof fn law_the_warning_states_the_excess(grouping: GroupingView)
    ensures
        grouping.double_counted > 1 ==> strings::holds(
            grouping.warning(),
            strings::decimal(grouping.double_counted as nat) + " commits"@,
        ),
        grouping.double_counted == 1 ==> strings::holds(grouping.warning(), "1 commit"@),
        grouping.double_counted == 0 && grouping.shared > 1 ==> strings::holds(
            grouping.warning(),
            strings::decimal(grouping.shared as nat) + " checkouts"@,
        ),
        grouping.double_counted == 0 && grouping.shared == 1 ==> strings::holds(
            grouping.warning(),
            "1 checkout"@,
        ),
{
    broadcast use strings::lemma_holds_together;

    reveal_strlit("1 ");
    reveal_strlit(" ");
    reveal_strlit("commit");
    reveal_strlit("commits");
    reveal_strlit("checkout");
    reveal_strlit("checkouts");
    reveal_strlit(" commits");
    reveal_strlit(" checkouts");
    reveal_strlit("1 commit");
    reveal_strlit("1 checkout");
    let n = grouping.double_counted as nat;
    let m = grouping.shared as nat;
    assert(render::counted(n, "commit"@, "commits"@) =~= if n == 1 {
        "1 commit"@
    } else {
        strings::decimal(n) + " commits"@
    });
    assert(render::counted(m, "checkout"@, "checkouts"@) =~= if m == 1 {
        "1 checkout"@
    } else {
        strings::decimal(m) + " checkouts"@
    });
    strings::lemma_holds_itself(render::counted(n, "commit"@, "commits"@));
    strings::lemma_holds_itself(render::counted(m, "checkout"@, "checkouts"@));
}

} // verus!
