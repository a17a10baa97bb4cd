//! Totals over the checkouts of one repository.
//!
//! Two worktrees of one repository share history, so a commit visible from both
//! is counted once, and so is a path touched by many commits: the totals are
//! sizes of unions, never sums.

use vstd::hash_set::StringHashSet;
use vstd::prelude::*;

use crate::compare;
use crate::config;
use crate::config::Ignored;
use crate::model;
use crate::model::{Churn, Commit, RepoDigest, Text};
use crate::strings;

verus! {

// ---------------------------------------------------------------------------
// What the totals are
// ---------------------------------------------------------------------------

/// The commits of the checkouts, one after the other.
pub open spec fn all_commits(checkouts: Seq<model::CheckoutView>) -> Seq<model::CommitView>
    decreases checkouts.len(),
{
    if checkouts.len() == 0 {
        Seq::empty()
    } else {
        all_commits(checkouts.drop_last()) + checkouts.last().report.commits
    }
}

/// Each commit once, where it first occurs. A commit is known by its id.
pub open spec fn distinct(commits: Seq<model::CommitView>) -> Seq<model::CommitView>
    decreases commits.len(),
{
    if commits.len() == 0 {
        Seq::empty()
    } else {
        let before = distinct(commits.drop_last());
        if compare::has_commit(before, commits.last().oid) {
            before
        } else {
            before.push(commits.last())
        }
    }
}

/// Every path that the commits touched.
pub open spec fn touched(commits: Seq<model::CommitView>) -> Set<Text>
    decreases commits.len(),
{
    if commits.len() == 0 {
        Set::empty()
    } else {
        touched(commits.drop_last()).union(commits.last().files.to_set())
    }
}

/// The local day of a commit: the date out of its rendered instant.
pub open spec fn day_of(commit: model::CommitView) -> Text {
    strings::before_first(commit.committed.local, ' ')
}

/// The local days on which the commits were made.
pub open spec fn days(commits: Seq<model::CommitView>) -> Set<Text>
    decreases commits.len(),
{
    if commits.len() == 0 {
        Set::empty()
    } else {
        days(commits.drop_last()).insert(day_of(commits.last()))
    }
}

/// The lines the commits added, in machine words.
pub open spec fn added(commits: Seq<model::CommitView>) -> u64
    decreases commits.len(),
{
    if commits.len() == 0 {
        0
    } else {
        added(commits.drop_last()).wrapping_add(commits.last().insertions)
    }
}

/// The lines the commits removed, in machine words.
pub open spec fn removed(commits: Seq<model::CommitView>) -> u64
    decreases commits.len(),
{
    if commits.len() == 0 {
        0
    } else {
        removed(commits.drop_last()).wrapping_add(commits.last().deletions)
    }
}

/// Those of the paths whose lines are not counted.
pub open spec fn excluded(files: Set<Text>, patterns: Seq<Text>) -> Set<Text> {
    files.filter(|file: Text| config::ignores(patterns, file))
}

/// The change volume of distinct commits.
pub open spec fn volume(commits: Seq<model::CommitView>, patterns: Seq<Text>) -> Churn {
    Churn {
        files: touched(commits).len() as usize,
        excluded: excluded(touched(commits), patterns).len() as usize,
        insertions: added(commits),
        deletions: removed(commits),
    }
}

/// A repository with its totals worked out over its checkouts.
pub open spec fn rolled(repo: model::RepoView, patterns: Seq<Text>) -> model::RepoView {
    let commits = distinct(all_commits(repo.checkouts));
    model::RepoView {
        commits: commits.len() as usize,
        churn: volume(commits, patterns),
        active_days: days(commits).len() as usize,
        ..repo
    }
}

// ---------------------------------------------------------------------------
// Adding up
// ---------------------------------------------------------------------------

/// Totals in the making.
struct Tally {
    seen: StringHashSet,
    files: StringHashSet,
    days: StringHashSet,
    excluded: usize,
    insertions: u64,
    deletions: u64,
}

impl Tally {
    /// Whether these are the totals of the distinct ones among the commits.
    spec fn totals(&self, commits: Seq<model::CommitView>, patterns: Seq<Text>) -> bool {
        let each = distinct(commits);
        &&& self.seen@.finite()
        &&& self.seen@.len() == each.len()
        &&& forall|oid: Text| #[trigger]
            self.seen@.contains(oid) <==> compare::has_commit(each, oid)
        &&& self.files@ == touched(each)
        &&& self.days@ == days(each)
        &&& self.excluded == excluded(touched(each), patterns).len()
        &&& self.insertions == added(each)
        &&& self.deletions == removed(each)
    }
}

pub proof fn lemma_touched_finite(commits: Seq<model::CommitView>)
    ensures
        touched(commits).finite(),
    decreases commits.len(),
{
    broadcast use vstd::seq_lib::seq_to_set_is_finite;

    if commits.len() > 0 {
        lemma_touched_finite(commits.drop_last());
    }
}

pub proof fn lemma_days_finite(commits: Seq<model::CommitView>)
    ensures
        days(commits).finite(),
    decreases commits.len(),
{
    if commits.len() > 0 {
        lemma_days_finite(commits.drop_last());
    }
}

fn add_files(
    seen: &mut StringHashSet,
    excluded_before: usize,
    files: &Vec<String>,
    ignored: &Ignored,
) -> (count: usize)
    requires
        old(seen)@.finite(),
        excluded_before == excluded(old(seen)@, ignored@).len(),
    ensures
        final(seen)@ == old(seen)@.union(strings::views(files@).to_set()),
        count == excluded(final(seen)@, ignored@).len(),
{
    broadcast use strings::group_lists;

    let ghost start = seen@;
    let ghost all = strings::views(files@);
    let mut count: usize = excluded_before;
    assert(start.union(all.take(0).to_set()) =~= start);
    for i in 0..files.len()
        invariant
            all == strings::views(files@),
            seen@ == start.union(all.take(i as int).to_set()),
            seen@.finite(),
            count == excluded(seen@, ignored@).len(),
    {
        broadcast use strings::group_lists;

        let file = files[i].clone();
        let ghost before = seen@;
        let ghost pred = |file: Text| config::ignores(ignored@, file);
        assert(all[i as int] == file@);
        proof {
            let longer = all.take(i + 1);
            assert(all.take(i as int).push(file@) == longer);
            assert forall|f: Text| longer.to_set().contains(f) <==> #[trigger] all.take(
                i as int,
            ).to_set().insert(file@).contains(f) by {
                if longer.contains(f) {
                    let k = choose|k: int| 0 <= k < longer.len() && longer[k] == f;
                    if k < i {
                        assert(all.take(i as int)[k] == f);
                    }
                }
                if all.take(i as int).contains(f) {
                    let k = choose|k: int|
                        0 <= k < all.take(i as int).len() && all.take(i as int)[k] == f;
                    assert(longer[k] == f);
                }
                assert(longer[i as int] == file@);
            }
            assert(start.union(longer.to_set()) =~= before.insert(file@));
        }
        let skipped = ignored.matches(file.as_str());
        let new = seen.insert(file.clone());
        proof {
            if before.contains(file@) {
                assert(seen@ =~= before);
            } else if pred(file@) {
                assert(seen@.filter(pred) =~= before.filter(pred).insert(file@));
                before.lemma_len_filter(pred);
                seen@.lemma_len_filter(pred);
            } else {
                assert(seen@.filter(pred) =~= before.filter(pred));
            }
        }
        if new && skipped {
            let size = seen.len();
            count = count + 1;
        }
    }
    assert(all.take(all.len() as int) =~= all);
    count
}

impl Tally {
    fn add(
        &mut self,
        commit: &Commit,
        ignored: &Ignored,
        Ghost(commits): Ghost<Seq<model::CommitView>>,
    )
        requires
            old(self).totals(commits, ignored@),
        ensures
            final(self).totals(commits.push(commit@), ignored@),
    {
        let ghost before = distinct(commits);
        let ghost longer = commits.push(commit@);
        assert(longer.drop_last() =~= commits);
        let ghost known = self.seen@;
        if self.seen.insert(commit.oid.clone()) {
            let ghost each = before.push(commit@);
            assert(distinct(longer) == each);
            assert(each.drop_last() =~= before);
            proof {
                lemma_touched_finite(before);
                assert forall|oid: Text| #[trigger]
                    self.seen@.contains(oid) <==> compare::has_commit(each, oid) by {
                    if compare::has_commit(each, oid) {
                        let k = choose|k: int| 0 <= k < each.len() && (#[trigger] each[k]).oid == oid;
                        if k < before.len() {
                            assert(before[k].oid == oid);
                            assert(known.contains(oid));
                        }
                    }
                    if known.contains(oid) {
                        let k = choose|k: int|
                            0 <= k < before.len() && (#[trigger] before[k]).oid == oid;
                        assert(each[k].oid == oid);
                    }
                    assert(each[before.len() as int].oid == commit@.oid);
                }
            }
            self.insertions = self.insertions.wrapping_add(commit.insertions);
            self.deletions = self.deletions.wrapping_add(commit.deletions);
            let day = strings::head_before(commit.committed.local.as_str(), ' ');
            self.days.insert(day);
            self.excluded = add_files(&mut self.files, self.excluded, &commit.files, ignored);
        } else {
            assert(known.contains(commit@.oid));
            assert(self.seen@ =~= known);
            assert(distinct(longer) == before);
        }
    }
}

/// Works out the totals of a repository: distinct commits, the union of touched
/// paths, and the days on which they were made.
pub fn rollup(repo: &mut RepoDigest, ignored: &Ignored)
    ensures
        final(repo)@ == rolled(old(repo)@, ignored@),
{
    broadcast use strings::group_lists;

    let ghost all = repo@.checkouts;
    let mut tally = Tally {
        seen: StringHashSet::new(),
        files: StringHashSet::new(),
        days: StringHashSet::new(),
        excluded: 0,
        insertions: 0,
        deletions: 0,
    };
    proof {
        let pred = |file: Text| config::ignores(ignored@, file);
        assert(Set::<Text>::empty().filter(pred) =~= Set::empty());
    }
    for i in 0..repo.checkouts.len()
        invariant
            all == strings::views(repo.checkouts@),
            tally.totals(all_commits(all.take(i as int)), ignored@),
    {
        broadcast use strings::group_lists;

        let commits = &repo.checkouts[i].report.commits;
        let ghost here = strings::views(commits@);
        let ghost before = all_commits(all.take(i as int));
        assert(all.take(i as int).push(all[i as int]) == all.take(i + 1));
        assert(all[i as int] == repo.checkouts@[i as int]@);
        assert(before + here.take(0) =~= before);
        for j in 0..commits.len()
            invariant
                here == strings::views(commits@),
                tally.totals(before + here.take(j as int), ignored@),
        {
            broadcast use strings::group_lists;

            assert(here[j as int] == commits@[j as int]@);
            assert((before + here.take(j as int)).push(here[j as int]) =~= before + here.take(
                j + 1,
            ));
            tally.add(&commits[j], ignored, Ghost(before + here.take(j as int)));
        }
        assert(here.take(here.len() as int) =~= here);
    }
    proof {
        let each = distinct(all_commits(all));
        lemma_touched_finite(each);
        lemma_days_finite(each);
    }
    repo.commits = tally.seen.len();
    repo.active_days = tally.days.len();
    repo.churn = Churn {
        files: tally.files.len(),
        excluded: tally.excluded,
        insertions: tally.insertions,
        deletions: tally.deletions,
    };
}

// ---------------------------------------------------------------------------
// Laws
// ---------------------------------------------------------------------------

/// No id occurs twice among the distinct commits, and none of the commits is
/// missing: each is counted exactly once.
pub proof fn law_a_commit_is_counted_once(commits: Seq<model::CommitView>)
    ensures
        forall|i: int, j: int|
            0 <= i < j < distinct(commits).len() ==> (#[trigger] distinct(commits)[i]).oid != (
            #[trigger] distinct(commits)[j]).oid,
        forall|i: int|
            0 <= i < commits.len() ==> compare::has_commit(
                distinct(commits),
                (#[trigger] commits[i]).oid,
            ),
    decreases commits.len(),
{
    if commits.len() > 0 {
        let rest = commits.drop_last();
        law_a_commit_is_counted_once(rest);
        let before = distinct(rest);
        let each = distinct(commits);
        assert forall|i: int| 0 <= i < commits.len() implies compare::has_commit(
            each,
            (#[trigger] commits[i]).oid,
        ) by {
            if i < rest.len() {
                assert(rest[i] == commits[i]);
                assert(compare::has_commit(before, rest[i].oid));
                let k = choose|k: int|
                    0 <= k < before.len() && (#[trigger] before[k]).oid == rest[i].oid;
                assert(each[k].oid == commits[i].oid);
            } else if !compare::has_commit(before, commits.last().oid) {
                assert(each[before.len() as int].oid == commits.last().oid);
            }
        }
    }
}

/// A second checkout with the same commits adds nothing to the totals: work
/// visible from two worktrees is counted once.
pub proof fn law_a_second_view_of_the_same_commits_adds_nothing(
    commits: Seq<model::CommitView>,
    again: Seq<model::CommitView>,
)
    requires
        forall|i: int|
            0 <= i < again.len() ==> compare::has_commit(commits, (#[trigger] again[i]).oid),
    ensures
        distinct(commits + again) == distinct(commits),
    decreases again.len(),
{
    if again.len() == 0 {
        assert(commits + again =~= commits);
    } else {
        let rest = again.drop_last();
        assert forall|i: int| 0 <= i < rest.len() implies compare::has_commit(
            commits,
            (#[trigger] rest[i]).oid,
        ) by {
            assert(rest[i] == again[i]);
        }
        law_a_second_view_of_the_same_commits_adds_nothing(commits, rest);
        assert((commits + again).drop_last() =~= commits + rest);
        law_a_commit_is_counted_once(commits);
        let last = again[again.len() - 1];
        assert(compare::has_commit(commits, last.oid));
        let k = choose|k: int| 0 <= k < commits.len() && (#[trigger] commits[k]).oid == last.oid;
        assert(compare::has_commit(distinct(commits), commits[k].oid));
    }
}

/// Whether a commit is the same wherever it is seen: one id, one commit.
pub open spec fn consistent(commits: Seq<model::CommitView>) -> bool {
    forall|i: int, j: int|
        0 <= i < commits.len() && 0 <= j < commits.len() && (#[trigger] commits[i]).oid == (
        #[trigger] commits[j]).oid ==> commits[i] == commits[j]
}

/// The ids of the commits.
pub open spec fn ids(commits: Seq<model::CommitView>) -> Set<Text> {
    Set::new(|oid: Text| compare::has_commit(commits, oid))
}

proof fn lemma_distinct_is_part(commits: Seq<model::CommitView>)
    ensures
        forall|i: int|
            0 <= i < distinct(commits).len() ==> commits.contains(#[trigger] distinct(commits)[i]),
    decreases commits.len(),
{
    if commits.len() > 0 {
        let rest = commits.drop_last();
        lemma_distinct_is_part(rest);
        assert forall|i: int| 0 <= i < distinct(commits).len() implies commits.contains(
            #[trigger] distinct(commits)[i],
        ) by {
            let before = distinct(rest);
            if i < before.len() {
                assert(rest.contains(before[i]));
                let k = choose|k: int| 0 <= k < rest.len() && rest[k] == before[i];
                assert(commits[k] == before[i]);
            } else {
                assert(commits[commits.len() - 1] == distinct(commits)[i]);
            }
        }
    }
}

/// Counting each commit once leaves out none of them.
proof fn lemma_distinct_is_all(commits: Seq<model::CommitView>)
    requires
        consistent(commits),
    ensures
        distinct(commits).to_set() == commits.to_set(),
        distinct(commits).no_duplicates(),
{
    law_a_commit_is_counted_once(commits);
    lemma_distinct_is_part(commits);
    let each = distinct(commits);
    assert forall|commit: model::CommitView| commits.to_set().contains(
        commit,
    ) implies each.to_set().contains(commit) by {
        let i = choose|i: int| 0 <= i < commits.len() && commits[i] == commit;
        assert(compare::has_commit(each, commits[i].oid));
        let k = choose|k: int| 0 <= k < each.len() && (#[trigger] each[k]).oid == commits[i].oid;
        assert(commits.contains(each[k]));
        let n = choose|n: int| 0 <= n < commits.len() && commits[n] == each[k];
        assert(commits[n] == commits[i]);
    }
    assert forall|commit: model::CommitView| each.to_set().contains(
        commit,
    ) implies commits.to_set().contains(commit) by {
        let k = choose|k: int| 0 <= k < each.len() && each[k] == commit;
        assert(commits.contains(each[k]));
    }
    assert(each.to_set() =~= commits.to_set());
    assert forall|i: int, j: int| 0 <= i < each.len() && 0 <= j < each.len() && i
        != j implies each[i] != each[j] by {
        if i < j {
            assert(each[i].oid != each[j].oid);
        } else {
            assert(each[j].oid != each[i].oid);
        }
    }
}

proof fn lemma_touched_holds(commits: Seq<model::CommitView>, file: Text)
    ensures
        touched(commits).contains(file) <==> exists|i: int|
            0 <= i < commits.len() && (#[trigger] commits[i]).files.contains(file),
    decreases commits.len(),
{
    if commits.len() > 0 {
        let rest = commits.drop_last();
        lemma_touched_holds(rest, file);
        if touched(rest).contains(file) {
            let i = choose|i: int|
                0 <= i < rest.len() && (#[trigger] rest[i]).files.contains(file);
            assert(commits[i].files.contains(file));
        }
        if commits.last().files.contains(file) {
            assert(commits[commits.len() - 1].files.contains(file));
        }
        if exists|i: int| 0 <= i < commits.len() && (#[trigger] commits[i]).files.contains(file) {
            let i = choose|i: int|
                0 <= i < commits.len() && (#[trigger] commits[i]).files.contains(file);
            if i < rest.len() {
                assert(rest[i].files.contains(file));
            }
        }
    }
}

proof fn lemma_days_hold(commits: Seq<model::CommitView>, day: Text)
    ensures
        days(commits).contains(day) <==> exists|i: int|
            0 <= i < commits.len() && day_of(#[trigger] commits[i]) == day,
    decreases commits.len(),
{
    if commits.len() > 0 {
        let rest = commits.drop_last();
        lemma_days_hold(rest, day);
        if days(rest).contains(day) {
            let i = choose|i: int| 0 <= i < rest.len() && day_of(#[trigger] rest[i]) == day;
            assert(day_of(commits[i]) == day);
        }
        if day_of(commits.last()) == day {
            assert(day_of(commits[commits.len() - 1]) == day);
        }
        if exists|i: int| 0 <= i < commits.len() && day_of(#[trigger] commits[i]) == day {
            let i = choose|i: int| 0 <= i < commits.len() && day_of(#[trigger] commits[i]) == day;
            if i < rest.len() {
                assert(day_of(rest[i]) == day);
            }
        }
    }
}

/// What is touched, and when, depends on which commits there are and on nothing
/// else.
proof fn lemma_sets_alike(a: Seq<model::CommitView>, b: Seq<model::CommitView>)
    requires
        a.to_set() == b.to_set(),
    ensures
        touched(a) == touched(b),
        days(a) == days(b),
        ids(a) == ids(b),
{
    lemma_sets_within(a, b);
    lemma_sets_within(b, a);
    assert(touched(a) =~= touched(b));
    assert(days(a) =~= days(b));
    assert(ids(a) =~= ids(b));
}

proof fn lemma_sets_within(a: Seq<model::CommitView>, b: Seq<model::CommitView>)
    requires
        a.to_set() == b.to_set(),
    ensures
        touched(a).subset_of(touched(b)),
        days(a).subset_of(days(b)),
        ids(a).subset_of(ids(b)),
{
    assert forall|i: int| 0 <= i < a.len() implies b.contains(#[trigger] a[i]) by {
        assert(a.to_set().contains(a[i]));
        assert(b.to_set().contains(a[i]));
    }
    assert forall|file: Text| touched(a).contains(file) implies touched(b).contains(file) by {
        lemma_touched_holds(a, file);
        lemma_touched_holds(b, file);
        let i = choose|i: int| 0 <= i < a.len() && (#[trigger] a[i]).files.contains(file);
        assert(b.contains(a[i]));
        let k = choose|k: int| 0 <= k < b.len() && b[k] == a[i];
        assert(b[k].files.contains(file));
    }
    assert forall|day: Text| days(a).contains(day) implies days(b).contains(day) by {
        lemma_days_hold(a, day);
        lemma_days_hold(b, day);
        let i = choose|i: int| 0 <= i < a.len() && day_of(#[trigger] a[i]) == day;
        assert(b.contains(a[i]));
        let k = choose|k: int| 0 <= k < b.len() && b[k] == a[i];
        assert(day_of(b[k]) == day);
    }
    assert forall|oid: Text| ids(a).contains(oid) implies ids(b).contains(oid) by {
        let i = choose|i: int| 0 <= i < a.len() && (#[trigger] a[i]).oid == oid;
        assert(b.contains(a[i]));
        let k = choose|k: int| 0 <= k < b.len() && b[k] == a[i];
        assert(b[k].oid == oid);
    }
}

/// As many commits as there are ids, where no id occurs twice.
proof fn lemma_ids_counted(commits: Seq<model::CommitView>)
    requires
        forall|i: int, j: int|
            0 <= i < j < commits.len() ==> (#[trigger] commits[i]).oid != (
            #[trigger] commits[j]).oid,
    ensures
        ids(commits).finite(),
        ids(commits).len() == commits.len(),
    decreases commits.len(),
{
    if commits.len() == 0 {
        assert(ids(commits) =~= Set::empty());
    } else {
        let rest = commits.drop_last();
        let last = commits.last();
        assert forall|i: int, j: int| 0 <= i < j < rest.len() implies (#[trigger] rest[i]).oid != (
        #[trigger] rest[j]).oid by {
            assert(rest[i] == commits[i] && rest[j] == commits[j]);
        }
        lemma_ids_counted(rest);
        assert(!ids(rest).contains(last.oid)) by {
            if compare::has_commit(rest, last.oid) {
                let k = choose|k: int|
                    0 <= k < rest.len() && (#[trigger] rest[k]).oid == last.oid;
                assert(commits[k].oid != commits[commits.len() - 1].oid);
            }
        }
        assert(ids(commits) =~= ids(rest).insert(last.oid)) by {
            assert forall|oid: Text| ids(commits).contains(oid) == ids(rest).insert(
                last.oid,
            ).contains(oid) by {
                if compare::has_commit(commits, oid) {
                    let k = choose|k: int|
                        0 <= k < commits.len() && (#[trigger] commits[k]).oid == oid;
                    if k < rest.len() {
                        assert(rest[k].oid == oid);
                    }
                }
                if compare::has_commit(rest, oid) {
                    let k = choose|k: int| 0 <= k < rest.len() && (#[trigger] rest[k]).oid == oid;
                    assert(commits[k].oid == oid);
                }
                if oid == last.oid {
                    assert(commits[commits.len() - 1].oid == oid);
                }
            }
        }
    }
}

/// The totals of a repository are those of its commits, each taken once: as
/// many commits as there are ids, as many files as there are paths touched, as
/// many of them excluded as are ignored, as many active days as there are days
/// on which a commit was made. The checkouts are left as they are.
pub proof fn law_totals_count_each_commit_once(repo: model::RepoView, patterns: Seq<Text>)
    requires
        consistent(all_commits(repo.checkouts)),
        ids(all_commits(repo.checkouts)).len() <= usize::MAX,
        touched(all_commits(repo.checkouts)).len() <= usize::MAX,
        days(all_commits(repo.checkouts)).len() <= usize::MAX,
    ensures
        ({
            let all = all_commits(repo.checkouts);
            let total = rolled(repo, patterns);
            &&& total.commits == ids(all).len()
            &&& total.churn.files == touched(all).len()
            &&& total.churn.excluded == excluded(touched(all), patterns).len()
            &&& total.churn.insertions == added(distinct(all))
            &&& total.churn.deletions == removed(distinct(all))
            &&& total.active_days == days(all).len()
            &&& total.checkouts == repo.checkouts
        }),
{
    let all = all_commits(repo.checkouts);
    let each = distinct(all);
    law_a_commit_is_counted_once(all);
    lemma_distinct_is_all(all);
    lemma_sets_alike(each, all);
    lemma_ids_counted(each);
    lemma_touched_finite(all);
    vstd::set_lib::lemma_len_subset(excluded(touched(all), patterns), touched(all));
}

proof fn lemma_same_sums(a: Seq<model::CommitView>, b: Seq<model::CommitView>)
    requires
        a.to_multiset() == b.to_multiset(),
    ensures
        added(a) == added(b),
        removed(a) == removed(b),
{
    let more = |sum: u64, commit: model::CommitView| sum.wrapping_add(commit.insertions);
    let less = |sum: u64, commit: model::CommitView| sum.wrapping_add(commit.deletions);
    lemma_sums_fold(a);
    lemma_sums_fold(b);
    vstd::seq_lib::lemma_fold_left_permutation(a, b, more, 0u64);
    vstd::seq_lib::lemma_fold_left_permutation(a, b, less, 0u64);
}

proof fn lemma_sums_fold(commits: Seq<model::CommitView>)
    ensures
        added(commits) == commits.fold_left(
            0u64,
            |sum: u64, commit: model::CommitView| sum.wrapping_add(commit.insertions),
        ),
        removed(commits) == commits.fold_left(
            0u64,
            |sum: u64, commit: model::CommitView| sum.wrapping_add(commit.deletions),
        ),
    decreases commits.len(),
{
    reveal(Seq::fold_left);
    if commits.len() > 0 {
        lemma_sums_fold(commits.drop_last());
    }
}

/// The totals depend on which commits are to be seen and on nothing else: not
/// on how many checkouts show them, nor in which order. Listing a checkout
/// twice changes none of them.
pub proof fn law_totals_depend_only_on_the_commits(
    a: model::RepoView,
    b: model::RepoView,
    patterns: Seq<Text>,
)
    requires
        consistent(all_commits(a.checkouts)),
        consistent(all_commits(b.checkouts)),
        all_commits(a.checkouts).to_set() == all_commits(b.checkouts).to_set(),
    ensures
        rolled(a, patterns).commits == rolled(b, patterns).commits,
        rolled(a, patterns).churn == rolled(b, patterns).churn,
        rolled(a, patterns).active_days == rolled(b, patterns).active_days,
{
    let x = distinct(all_commits(a.checkouts));
    let y = distinct(all_commits(b.checkouts));
    lemma_distinct_is_all(all_commits(a.checkouts));
    lemma_distinct_is_all(all_commits(b.checkouts));
    lemma_sets_alike(x, y);
    x.lemma_multiset_has_no_duplicates();
    y.lemma_multiset_has_no_duplicates();
    x.to_multiset_ensures();
    y.to_multiset_ensures();
    assert(x.to_multiset() =~= y.to_multiset()) by {
        assert forall|commit: model::CommitView| #[trigger] x.to_multiset().count(commit)
            == y.to_multiset().count(commit) by {
            assert(x.to_set().contains(commit) == y.to_set().contains(commit));
            assert(x.contains(commit) == y.contains(commit));
            if x.contains(commit) {
                assert(x.to_multiset().contains(commit) && y.to_multiset().contains(commit));
            }
        }
    }
    lemma_same_sums(x, y);
}

proof fn lemma_one_more_checkout(
    checkouts: Seq<model::CheckoutView>,
    checkout: model::CheckoutView,
)
    requires
        checkouts.contains(checkout),
    ensures
        forall|k: int|
            0 <= k < checkout.report.commits.len() ==> all_commits(checkouts).contains(
                #[trigger] checkout.report.commits[k],
            ),
    decreases checkouts.len(),
{
    let before = all_commits(checkouts.drop_last());
    let here = checkouts.last().report.commits;
    assert forall|k: int| 0 <= k < checkout.report.commits.len() implies all_commits(
        checkouts,
    ).contains(#[trigger] checkout.report.commits[k]) by {
        let commit = checkout.report.commits[k];
        if checkouts.last() == checkout {
            assert(all_commits(checkouts)[before.len() + k] == commit);
        } else {
            let at = choose|at: int| 0 <= at < checkouts.len() && checkouts[at] == checkout;
            assert(checkouts.drop_last()[at] == checkout);
            lemma_one_more_checkout(checkouts.drop_last(), checkout);
            assert(before.contains(commit));
            let n = choose|n: int| 0 <= n < before.len() && before[n] == commit;
            assert(all_commits(checkouts)[n] == commit);
        }
    }
}

/// Listing a checkout twice changes no total.
pub proof fn law_a_checkout_listed_twice_adds_nothing(
    repo: model::RepoView,
    checkout: model::CheckoutView,
    patterns: Seq<Text>,
)
    requires
        repo.checkouts.contains(checkout),
    ensures
        ({
            let twice = model::RepoView { checkouts: repo.checkouts.push(checkout), ..repo };
            &&& rolled(twice, patterns).commits == rolled(repo, patterns).commits
            &&& rolled(twice, patterns).churn == rolled(repo, patterns).churn
            &&& rolled(twice, patterns).active_days == rolled(repo, patterns).active_days
        }),
{
    let more = repo.checkouts.push(checkout);
    assert(more.drop_last() =~= repo.checkouts);
    let all = all_commits(repo.checkouts);
    let again = checkout.report.commits;
    lemma_one_more_checkout(repo.checkouts, checkout);
    assert forall|i: int| 0 <= i < again.len() implies compare::has_commit(
        all,
        (#[trigger] again[i]).oid,
    ) by {
        assert(all.contains(again[i]));
        let k = choose|k: int| 0 <= k < all.len() && all[k] == again[i];
        assert(all[k].oid == again[i].oid);
    }
    law_a_second_view_of_the_same_commits_adds_nothing(all, again);
}

/// The commits of a repository are those of its checkouts, and no others.
pub proof fn law_every_checkouts_commits_are_taken(
    checkouts: Seq<model::CheckoutView>,
    commit: model::CommitView,
)
    ensures
        all_commits(checkouts).contains(commit) <==> exists|i: int|
            0 <= i < checkouts.len() && (#[trigger] checkouts[i]).report.commits.contains(commit),
    decreases checkouts.len(),
{
    if checkouts.len() > 0 {
        let rest = checkouts.drop_last();
        let last = checkouts.last().report.commits;
        law_every_checkouts_commits_are_taken(rest, commit);
        assert(checkouts[checkouts.len() - 1].report.commits == last);
        assert(forall|i: int| 0 <= i < rest.len() ==> #[trigger] checkouts[i] == rest[i]);
        let both = all_commits(rest) + last;
        if both.contains(commit) {
            let k = choose|k: int| 0 <= k < both.len() && both[k] == commit;
            if k < all_commits(rest).len() {
                assert(all_commits(rest)[k] == commit);
                let i = choose|i: int|
                    0 <= i < rest.len() && (#[trigger] rest[i]).report.commits.contains(commit);
                assert(checkouts[i].report.commits.contains(commit));
            } else {
                assert(last[k - all_commits(rest).len()] == commit);
            }
        }
        if exists|i: int|
            0 <= i < checkouts.len() && (#[trigger] checkouts[i]).report.commits.contains(commit) {
            let i = choose|i: int|
                0 <= i < checkouts.len() && (#[trigger] checkouts[i]).report.commits.contains(
                    commit,
                );
            if i < rest.len() {
                assert(rest[i].report.commits.contains(commit));
                let k = choose|k: int|
                    0 <= k < all_commits(rest).len() && all_commits(rest)[k] == commit;
                assert(both[k] == commit);
            } else {
                let k = choose|k: int| 0 <= k < last.len() && last[k] == commit;
                assert(both[all_commits(rest).len() + k] == commit);
            }
        }
    }
}

/// A file is touched exactly where one of the commits changes it, and excluded
/// where one of the patterns ignores it too.
pub proof fn law_a_touched_file_is_in_a_commit(
    commits: Seq<model::CommitView>,
    patterns: Seq<Text>,
    file: Text,
)
    ensures
        touched(commits).contains(file) <==> exists|i: int|
            0 <= i < commits.len() && (#[trigger] commits[i]).files.contains(file),
        excluded(touched(commits), patterns).contains(file) <==> touched(commits).contains(file)
            && exists|k: int| 0 <= k < patterns.len() && config::covers(#[trigger] patterns[k], file),
{
    lemma_touched_holds(commits, file);
}

/// A day is active exactly where one of the commits was made on it: the date of
/// its local time, up to the space.
pub proof fn law_an_active_day_is_the_day_of_a_commit(
    commits: Seq<model::CommitView>,
    day: Text,
)
    requires
        !day.contains(' '),
        forall|i: int|
            0 <= i < commits.len() ==> (#[trigger] commits[i]).committed.local.contains(' '),
    ensures
        days(commits).contains(day) <==> exists|i: int|
            0 <= i < commits.len() && strings::begins(
                (#[trigger] commits[i]).committed.local,
                day.push(' '),
            ),
{
    lemma_days_hold(commits, day);
    assert forall|i: int| 0 <= i < commits.len() implies (day_of(#[trigger] commits[i]) == day
        <==> strings::begins(commits[i].committed.local, day.push(' '))) by {
        lemma_day_is_before_the_space(commits[i].committed.local, day);
    }
}

proof fn lemma_day_is_before_the_space(local: Text, day: Text)
    requires
        !day.contains(' '),
        local.contains(' '),
    ensures
        strings::before_first(local, ' ') == day <==> strings::begins(local, day.push(' ')),
    decreases local.len(),
{
    let spaced = day.push(' ');
    if local[0] == ' ' {
        if strings::begins(local, spaced) && day.len() > 0 {
            assert(local.take(spaced.len() as int)[0] == local[0]);
            assert(spaced[0] == local[0]);
            assert(day[0] == ' ');
            assert(day.contains(' '));
        }
        if day.len() == 0 {
            assert(spaced =~= seq![' ']);
            assert(local.take(1) =~= spaced);
        }
        assert(strings::before_first(local, ' ') =~= Seq::empty());
        assert(day.len() == 0 ==> day =~= Seq::empty());
    } else {
        let k = choose|k: int| 0 <= k < local.len() && local[k] == ' ';
        let rest = local.drop_first();
        assert(rest[k - 1] == ' ');
        if day.len() == 0 {
            assert(spaced[0] == ' ');
            assert(strings::before_first(local, ' ').len() > 0);
            if strings::begins(local, spaced) {
                assert(local.take(spaced.len() as int)[0] == local[0]);
            }
        } else {
            let short = day.drop_first();
            if short.contains(' ') {
                let j = choose|j: int| 0 <= j < short.len() && short[j] == ' ';
                assert(day[j + 1] == ' ');
            }
            lemma_day_is_before_the_space(rest, short);
            assert(short.push(' ') =~= spaced.drop_first());
            assert(seq![day[0]] + short =~= day);
            if strings::begins(local, spaced) {
                assert(rest.take(spaced.len() - 1) =~= local.take(spaced.len() as int).drop_first());
                assert(local.take(spaced.len() as int)[0] == spaced[0]);
                assert(local[0] == day[0]);
                assert(rest.take(short.push(' ').len() as int) == short.push(' '));
                assert(strings::begins(rest, short.push(' ')));
                assert(strings::before_first(rest, ' ') == short);
            }
            if strings::before_first(local, ' ') == day {
                let found = strings::before_first(rest, ' ');
                assert((seq![local[0]] + found)[0] == local[0]);
                assert((seq![local[0]] + found).drop_first() =~= found);
                assert(found == short);
                assert(strings::begins(rest, short.push(' ')));
                assert(rest.take(spaced.len() - 1) == short.push(' '));
                assert(local.take(spaced.len() as int) =~= seq![local[0]] + rest.take(
                    spaced.len() - 1,
                ));
                assert(spaced =~= seq![day[0]] + short.push(' '));
            }
        }
    }
}

/// The lines of some commits are the lines of each of them added up: those of two
/// lists put together are those of the one and of the other.
pub proof fn law_the_lines_of_commits_add_up(
    a: Seq<model::CommitView>,
    b: Seq<model::CommitView>,
    one: model::CommitView,
)
    ensures
        added(a + b) == added(a).wrapping_add(added(b)),
        removed(a + b) == removed(a).wrapping_add(removed(b)),
        added(seq![one]) == one.insertions,
        removed(seq![one]) == one.deletions,
        added(Seq::empty()) == 0,
        removed(Seq::empty()) == 0,
    decreases b.len(),
{
    let single = seq![one];
    assert(single.drop_last() =~= Seq::empty());
    assert(added(single.drop_last()) == 0 && removed(single.drop_last()) == 0);
    if b.len() == 0 {
        assert(a + b =~= a);
    } else {
        law_the_lines_of_commits_add_up(a, b.drop_last(), one);
        assert((a + b).drop_last() =~= a + b.drop_last());
        assert((a + b).last() == b.last());
    }
}

/// What is counted is one of the commits as it was seen, and the first of its id.
pub proof fn law_the_first_view_of_a_commit_counts(commits: Seq<model::CommitView>, i: int)
    requires
        0 <= i < commits.len(),
        forall|j: int| 0 <= j < i ==> (#[trigger] commits[j]).oid != commits[i].oid,
    ensures
        distinct(commits).contains(commits[i]),
        forall|k: int|
            0 <= k < distinct(commits).len() ==> commits.contains(#[trigger] distinct(commits)[k]),
    decreases commits.len(),
{
    let rest = commits.drop_last();
    let last = commits.last();
    let before = distinct(rest);
    lemma_distinct_is_part(rest);
    assert forall|k: int| 0 <= k < distinct(commits).len() implies commits.contains(
        #[trigger] distinct(commits)[k],
    ) by {
        if k < before.len() {
            assert(before[k] == distinct(commits)[k]);
            assert(rest.contains(before[k]));
            let at = choose|at: int| 0 <= at < rest.len() && rest[at] == before[k];
            assert(commits[at] == before[k]);
        } else {
            assert(commits[commits.len() - 1] == last);
        }
    }
    if i < rest.len() {
        assert(rest[i] == commits[i]);
        assert(forall|j: int| 0 <= j < rest.len() ==> #[trigger] rest[j] == commits[j]);
        law_the_first_view_of_a_commit_counts(rest, i);
        let at = choose|at: int| 0 <= at < before.len() && before[at] == commits[i];
        assert(distinct(commits)[at] == commits[i]);
    } else {
        if compare::has_commit(before, last.oid) {
            let k = choose|k: int| 0 <= k < before.len() && (#[trigger] before[k]).oid == last.oid;
            assert(rest.contains(before[k]));
            let at = choose|at: int| 0 <= at < rest.len() && rest[at] == before[k];
            assert(commits[at].oid == last.oid);
        }
        assert(distinct(commits)[before.len() as int] == commits[i]);
    }
}

} // verus!
