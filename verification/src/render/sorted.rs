//! In what order a rendering shows things.

use vstd::prelude::*;

use crate::model;
use crate::order;
use crate::paths;
use crate::render;
use crate::strings;

verus! {

proof fn lemma_repo_order(a: model::RepoView, b: model::RepoView, c: model::RepoView)
    ensures
        !render::repo_first(a, a),
        render::repo_first(a, b) && render::repo_first(b, c) ==> render::repo_first(a, c),
        !render::repo_first(a, b) && !render::repo_first(b, c) ==> !render::repo_first(a, c),
{
    strings::law_precedes_is_a_strict_total_order(a.name, b.name, c.name);
    strings::law_precedes_is_a_strict_total_order(b.name, a.name, c.name);
}

/// Repositories are shown loudest first: one that could not be read stands
/// above all that could, and a busier one above a quieter one.
pub proof fn law_repositories_are_loudest_first(repos: Seq<model::RepoView>, i: int, j: int)
    requires
        0 <= i < j < repos.len(),
    ensures
        ({
            let sorted = render::repos_sorted(repos);
            &&& sorted.len() == repos.len()
            &&& sorted[i].activity().rank() >= sorted[j].activity().rank()
            &&& sorted[i].activity() == sorted[j].activity() ==> sorted[i].commits
                >= sorted[j].commits
            &&& sorted[i].activity() == sorted[j].activity() && sorted[i].commits
                == sorted[j].commits ==> sorted[i].churn.insertions >= sorted[j].churn.insertions
            &&& sorted[i].activity() == sorted[j].activity() && sorted[i].commits
                == sorted[j].commits && sorted[i].churn.insertions == sorted[j].churn.insertions
                ==> !strings::precedes(sorted[j].name, sorted[i].name)
        }),
{
    let before = |a: model::RepoView, b: model::RepoView| render::repo_first(a, b);
    assert(order::is_ordering(before)) by {
        assert forall|a: model::RepoView| !#[trigger] before(a, a) by {
            lemma_repo_order(a, a, a);
        }
        assert forall|a: model::RepoView, b: model::RepoView, c: model::RepoView| #[trigger]
            before(a, b) && #[trigger] before(b, c) implies before(a, c) by {
            lemma_repo_order(a, b, c);
        }
        assert forall|a: model::RepoView, b: model::RepoView, c: model::RepoView| !#[trigger]
            before(a, b) && !#[trigger] before(b, c) implies !before(a, c) by {
            lemma_repo_order(a, b, c);
        }
    }
    order::law_arranged_keeps_items(repos, before);
    order::law_arranged_is_in_order(repos, before);
    let sorted = render::repos_sorted(repos);
    assert(!before(sorted[j], sorted[i]));
}

proof fn lemma_checkout_order(
    a: model::CheckoutView,
    b: model::CheckoutView,
    c: model::CheckoutView,
)
    ensures
        !render::checkout_first(a, a),
        render::checkout_first(a, b) && render::checkout_first(b, c) ==> render::checkout_first(
            a,
            c,
        ),
        !render::checkout_first(a, b) && !render::checkout_first(b, c) ==> !render::checkout_first(
            a,
            c,
        ),
{
    paths::law_path_order_is_an_ordering(a.report.path, b.report.path, c.report.path);
}

/// The checkouts of a repository are shown loudest first.
pub proof fn law_checkouts_are_loudest_first(
    checkouts: Seq<model::CheckoutView>,
    i: int,
    j: int,
)
    requires
        0 <= i < j < checkouts.len(),
    ensures
        ({
            let sorted = render::checkouts_sorted(checkouts);
            &&& sorted.len() == checkouts.len()
            &&& sorted[i].report.activity().rank() >= sorted[j].report.activity().rank()
            &&& sorted[i].report.activity() == sorted[j].report.activity()
                ==> sorted[i].report.commits.len() >= sorted[j].report.commits.len()
            &&& sorted[i].report.activity() == sorted[j].report.activity()
                && sorted[i].report.commits.len() == sorted[j].report.commits.len()
                ==> render::latest(sorted[i].report.commits) >= render::latest(
                sorted[j].report.commits,
            )
        }),
{
    let before = |a: model::CheckoutView, b: model::CheckoutView| render::checkout_first(a, b);
    assert(order::is_ordering(before)) by {
        assert forall|a: model::CheckoutView| !#[trigger] before(a, a) by {
            lemma_checkout_order(a, a, a);
        }
        assert forall|a: model::CheckoutView, b: model::CheckoutView, c: model::CheckoutView|
            #[trigger] before(a, b) && #[trigger] before(b, c) implies before(a, c) by {
            lemma_checkout_order(a, b, c);
        }
        assert forall|a: model::CheckoutView, b: model::CheckoutView, c: model::CheckoutView|
            !#[trigger] before(a, b) && !#[trigger] before(b, c) implies !before(a, c) by {
            lemma_checkout_order(a, b, c);
        }
    }
    order::law_arranged_keeps_items(checkouts, before);
    order::law_arranged_is_in_order(checkouts, before);
    let sorted = render::checkouts_sorted(checkouts);
    assert(!before(sorted[j], sorted[i]));
}

proof fn lemma_commit_order(a: model::CommitView, b: model::CommitView, c: model::CommitView)
    ensures
        !render::commit_first(a, a),
        render::commit_first(a, b) && render::commit_first(b, c) ==> render::commit_first(a, c),
        !render::commit_first(a, b) && !render::commit_first(b, c) ==> !render::commit_first(a, c),
{
    strings::law_precedes_is_a_strict_total_order(a.oid, b.oid, c.oid);
    strings::law_precedes_is_a_strict_total_order(b.oid, a.oid, c.oid);
}

/// Time orders the commits of a checkout: they are shown newest first.
pub proof fn law_commits_are_newest_first(commits: Seq<model::CommitView>, i: int, j: int)
    requires
        0 <= i < j < commits.len(),
    ensures
        render::commits_sorted(commits).len() == commits.len(),
        render::commits_sorted(commits)[i].committed.epoch >= render::commits_sorted(
            commits,
        )[j].committed.epoch,
        render::commits_sorted(commits)[i].committed.epoch == render::commits_sorted(
            commits,
        )[j].committed.epoch ==> !strings::precedes(
            render::commits_sorted(commits)[j].oid,
            render::commits_sorted(commits)[i].oid,
        ),
{
    let before = |a: model::CommitView, b: model::CommitView| render::commit_first(a, b);
    assert(order::is_ordering(before)) by {
        assert forall|a: model::CommitView| !#[trigger] before(a, a) by {
            lemma_commit_order(a, a, a);
        }
        assert forall|a: model::CommitView, b: model::CommitView, c: model::CommitView|
            #[trigger] before(a, b) && #[trigger] before(b, c) implies before(a, c) by {
            lemma_commit_order(a, b, c);
        }
        assert forall|a: model::CommitView, b: model::CommitView, c: model::CommitView|
            !#[trigger] before(a, b) && !#[trigger] before(b, c) implies !before(a, c) by {
            lemma_commit_order(a, b, c);
        }
    }
    order::law_arranged_keeps_items(commits, before);
    order::law_arranged_is_in_order(commits, before);
    let sorted = render::commits_sorted(commits);
    assert(!before(sorted[j], sorted[i]));
}

} // verus!
