//! Comparing two digests.
//!
//! A longer window says that more happened. A comparison says what *moved*:
//! work that is new, work that finished, and work that stalled.
//!
//! Checkouts are matched by path, which is the only identity a checkout has
//! across two runs. Commits are matched by id. A comparison is a function of
//! the two digests alone.

use vstd::prelude::*;

use crate::model::{
    Activity, CheckoutDigest, Comparison, Digest, Landed, Movement, RepoComparison, RepoDigest,
    RepoKey, Text, SCHEMA_VERSION,
};
use crate::model;
use crate::order;
use crate::paths;
use crate::strings;

verus! {

// ---------------------------------------------------------------------------
// What moved
// ---------------------------------------------------------------------------

/// The first repository with this key.
pub open spec fn repo_with(repos: Seq<model::RepoView>, key: RepoKey<Text>) -> Option<
    model::RepoView,
>
    decreases repos.len(),
{
    if repos.len() == 0 {
        None
    } else if repos[0].repo_key == key {
        Some(repos[0])
    } else {
        repo_with(repos.drop_first(), key)
    }
}

/// The first checkout at this place.
pub open spec fn checkout_at(checkouts: Seq<model::CheckoutView>, path: Text) -> Option<
    model::CheckoutView,
>
    decreases checkouts.len(),
{
    if checkouts.len() == 0 {
        None
    } else if paths::same_place(checkouts[0].report.path, path) {
        Some(checkouts[0])
    } else {
        checkout_at(checkouts.drop_first(), path)
    }
}

/// Whether a commit with this id is in the list.
pub open spec fn has_commit(commits: Seq<model::CommitView>, oid: Text) -> bool {
    exists|i: int| 0 <= i < commits.len() && (#[trigger] commits[i]).oid == oid
}

/// How many of the commits are not among the earlier ones.
pub open spec fn fresh(now: Seq<model::CommitView>, was: Seq<model::CommitView>) -> nat
    decreases now.len(),
{
    if now.len() == 0 {
        0
    } else {
        fresh(now.drop_last(), was) + if has_commit(was, now.last().oid) {
            0nat
        } else {
            1nat
        }
    }
}

/// Whether the work is on the trunk, exactly or by a matching patch.
pub open spec fn is_in(landed: Landed<Text>) -> bool {
    landed is Merged || landed is Equivalent || landed is IsDefault
}

/// Whether the work reached the trunk between the two digests.
pub open spec fn landed_since(was: model::CheckoutView, now: model::CheckoutView) -> bool {
    !is_in(was.report.landed) && is_in(now.report.landed)
}

/// What happened to a checkout. New work is named first, because it is what the
/// digest is for; then work that finished; then work that stalled.
pub open spec fn movement_of(
    was: Option<model::CheckoutView>,
    now: model::CheckoutView,
) -> Movement {
    match was {
        None => Movement::Appeared { commits: now.report.commits.len() as usize },
        Some(was) => {
            let held = was.report.unpushed.at_risk();
            let holding = now.report.unpushed.at_risk();
            let new = fresh(now.report.commits, was.report.commits);
            if new > 0 {
                Movement::Advanced { commits: new as usize, landed: landed_since(was, now) }
            } else if landed_since(was, now) {
                Movement::Landed
            } else if held > 0 && holding == 0 {
                Movement::Pushed { was_holding: held }
            } else if holding > 0 || !now.report.dirty.clean() {
                Movement::Stalled { unpushed: holding, uncommitted: !now.report.dirty.clean() }
            } else {
                Movement::Unchanged
            }
        },
    }
}

pub open spec fn gone(checkout: model::CheckoutView) -> (Text, Movement) {
    (
        checkout.report.path,
        Movement::Gone { was_holding: checkout.report.unpushed.at_risk() },
    )
}

/// The checkouts that are in the later digest, each with what happened to it.
pub open spec fn present(
    checkouts: Seq<model::CheckoutView>,
    before: Seq<model::CheckoutView>,
) -> Seq<(Text, Movement)> {
    Seq::new(
        checkouts.len(),
        |i: int|
            (
                checkouts[i].report.path,
                movement_of(checkout_at(before, checkouts[i].report.path), checkouts[i]),
            ),
    )
}

/// The checkouts that were in the earlier digest and are not in the later one.
pub open spec fn absent(
    before: Seq<model::CheckoutView>,
    checkouts: Seq<model::CheckoutView>,
) -> Seq<(Text, Movement)>
    decreases before.len(),
{
    if before.len() == 0 {
        Seq::empty()
    } else {
        let earlier = absent(before.drop_last(), checkouts);
        if checkout_at(checkouts, before.last().report.path) is Some {
            earlier
        } else {
            earlier.push(gone(before.last()))
        }
    }
}

/// What happened to a repository that is in the later digest.
pub open spec fn compared(repo: model::RepoView, before: Seq<model::RepoView>) -> model::RepoComparisonView {
    match repo_with(before, repo.repo_key) {
        None => model::RepoComparisonView {
            repo_key: repo.repo_key,
            name: repo.name,
            commits: repo.commits,
            checkouts: present(repo.checkouts, Seq::empty()),
        },
        Some(old) => model::RepoComparisonView {
            repo_key: repo.repo_key,
            name: repo.name,
            commits: if repo.commits > old.commits {
                (repo.commits - old.commits) as usize
            } else {
                0
            },
            checkouts: present(repo.checkouts, old.checkouts) + absent(
                old.checkouts,
                repo.checkouts,
            ),
        },
    }
}

/// What happened to a repository that is not in the later digest.
pub open spec fn closed(repo: model::RepoView) -> model::RepoComparisonView {
    model::RepoComparisonView {
        repo_key: repo.repo_key,
        name: repo.name,
        commits: 0,
        checkouts: Seq::new(repo.checkouts.len(), |i: int| gone(repo.checkouts[i])),
    }
}

pub open spec fn all_compared(after: Seq<model::RepoView>, before: Seq<model::RepoView>) -> Seq<
    model::RepoComparisonView,
> {
    Seq::new(after.len(), |i: int| compared(after[i], before))
}

/// The repositories that were in the earlier digest and are not in the later
/// one.
pub open spec fn all_closed(before: Seq<model::RepoView>, after: Seq<model::RepoView>) -> Seq<
    model::RepoComparisonView,
>
    decreases before.len(),
{
    if before.len() == 0 {
        Seq::empty()
    } else {
        let earlier = all_closed(before.drop_last(), after);
        if repo_with(after, before.last().repo_key) is Some {
            earlier
        } else {
            earlier.push(closed(before.last()))
        }
    }
}

/// How prominent a movement is. Work that vanished while holding unpushed
/// commits comes above all, because there something was lost.
pub open spec fn movement_rank(movement: Movement) -> int {
    match movement {
        Movement::Gone { was_holding } => if was_holding > 0 {
            5
        } else {
            1
        },
        Movement::Advanced { .. } | Movement::Appeared { .. } => 4,
        Movement::Landed | Movement::Pushed { .. } => 3,
        Movement::Stalled { .. } => 2,
        Movement::Unchanged => 0,
    }
}

pub open spec fn top_rank(checkouts: Seq<(Text, Movement)>) -> int
    decreases checkouts.len(),
{
    if checkouts.len() == 0 {
        0
    } else {
        let before = top_rank(checkouts.drop_last());
        let here = movement_rank(checkouts.last().1);
        if here > before {
            here
        } else {
            before
        }
    }
}

/// The order of repositories in a comparison: the most prominent movement
/// first, then the most new commits, then by name.
pub open spec fn more_moved(a: model::RepoComparisonView, b: model::RepoComparisonView) -> bool {
    let left = top_rank(a.checkouts);
    let right = top_rank(b.checkouts);
    if left != right {
        left > right
    } else if a.commits != b.commits {
        a.commits > b.commits
    } else {
        strings::precedes(a.name, b.name)
    }
}

pub open spec fn comparison_of(
    before: model::DigestView,
    after: model::DigestView,
) -> model::ComparisonView {
    model::ComparisonView {
        schema: SCHEMA_VERSION,
        before: before.generated_at,
        after: after.generated_at,
        repos: order::arranged(
            all_compared(after.repos, before.repos) + all_closed(before.repos, after.repos),
            |a: model::RepoComparisonView, b: model::RepoComparisonView| more_moved(a, b),
        ),
    }
}

// ---------------------------------------------------------------------------
// Finding out
// ---------------------------------------------------------------------------

#[verifier::loop_isolation(false)]
fn find_repo<'a>(repos: &'a Vec<RepoDigest>, key: &RepoKey) -> (out: Option<&'a RepoDigest>)
    ensures
        strings::view_of(out) == repo_with(strings::views(repos@), key@),
{
    let ghost all = strings::views(repos@);
    assert(all.skip(0) =~= all);
    for i in 0..repos.len()
        invariant
            repo_with(all, key@) == repo_with(all.skip(i as int), key@),
    {
        let ghost rest = all.skip(i as int);
        assert(rest[0] == repos@[i as int]@);
        assert(rest.drop_first() =~= all.skip(i + 1));
        if strings::same(repos[i].repo_key.as_str(), key.as_str()) {
            assert(rest[0].repo_key == key@);
            return Some(&repos[i]);
        }
    }
    None
}

#[verifier::loop_isolation(false)]
fn find_checkout<'a>(checkouts: &'a Vec<CheckoutDigest>, path: &str) -> (out: Option<
    &'a CheckoutDigest,
>)
    ensures
        strings::view_of(out) == checkout_at(strings::views(checkouts@), path@),
{
    let ghost all = strings::views(checkouts@);
    assert(all.skip(0) =~= all);
    for i in 0..checkouts.len()
        invariant
            checkout_at(all, path@) == checkout_at(all.skip(i as int), path@),
    {
        let ghost rest = all.skip(i as int);
        assert(rest[0] == checkouts@[i as int]@);
        assert(rest.drop_first() =~= all.skip(i + 1));
        if paths::is_same_place(checkouts[i].report.path.as_str(), path) {
            return Some(&checkouts[i]);
        }
    }
    None
}

#[verifier::loop_isolation(false)]
fn knows_commit(commits: &Vec<model::Commit>, oid: &str) -> (answer: bool)
    ensures
        answer == has_commit(strings::views(commits@), oid@),
{
    let ghost all = strings::views(commits@);
    for i in 0..commits.len()
        invariant
            forall|j: int| 0 <= j < i ==> (#[trigger] all[j]).oid != oid@,
    {
        assert(all[i as int] == commits@[i as int]@);
        if strings::same(commits[i].oid.as_str(), oid) {
            return true;
        }
    }
    false
}

fn is_landed(landed: &Landed) -> (answer: bool)
    ensures
        answer == is_in(landed@),
{
    match landed {
        Landed::Merged { .. } | Landed::Equivalent { .. } | Landed::IsDefault { .. } => true,
        Landed::NotMerged { .. } | Landed::Unknown { .. } => false,
    }
}

fn has_landed_since(was: &CheckoutDigest, now: &CheckoutDigest) -> (answer: bool)
    ensures
        answer == landed_since(was@, now@),
{
    !is_landed(&was.report.landed) && is_landed(&now.report.landed)
}

fn count_fresh(now: &Vec<model::Commit>, was: &Vec<model::Commit>) -> (n: usize)
    ensures
        n == fresh(strings::views(now@), strings::views(was@)),
{
    broadcast use strings::group_lists;

    let mut n: usize = 0;
    for i in 0..now.len()
        invariant
            n <= i,
            n == fresh(strings::views(now@).take(i as int), strings::views(was@)),
    {
        broadcast use strings::group_lists;

        let ghost all = strings::views(now@);
        assert(all.take(i as int).push(all[i as int]) == all.take(i + 1));
        assert(all[i as int] == now@[i as int]@);
        if !knows_commit(was, now[i].oid.as_str()) {
            n = n + 1;
        }
    }
    n
}

/// What happened to one checkout between the two digests.
pub fn movement(was: Option<&CheckoutDigest>, now: &CheckoutDigest) -> (out: Movement)
    ensures
        out == movement_of(strings::view_of(was), now@),
{
    let was = match was {
        Some(was) => was,
        None => {
            return Movement::Appeared { commits: now.report.commits.len() };
        },
    };
    let commits = count_fresh(&now.report.commits, &was.report.commits);
    if commits > 0 {
        return Movement::Advanced { commits, landed: has_landed_since(was, now) };
    }
    if has_landed_since(was, now) {
        return Movement::Landed;
    }
    let held = was.report.unpushed.at_risk();
    let holding = now.report.unpushed.at_risk();
    if held > 0 && holding == 0 {
        return Movement::Pushed { was_holding: held };
    }
    let uncommitted = !now.report.dirty.is_clean();
    if holding > 0 || uncommitted {
        return Movement::Stalled { unpushed: holding, uncommitted };
    }
    Movement::Unchanged
}

fn push_present(
    out: &mut Vec<(String, Movement)>,
    checkouts: &Vec<CheckoutDigest>,
    before: &Vec<CheckoutDigest>,
)
    ensures
        strings::views(final(out)@) == strings::views(old(out)@) + present(
            strings::views(checkouts@),
            strings::views(before@),
        ),
{
    broadcast use strings::group_lists;

    let ghost start = strings::views(out@);
    let ghost all = present(strings::views(checkouts@), strings::views(before@));
    assert(start + all.take(0) =~= start);
    for i in 0..checkouts.len()
        invariant
            all == present(strings::views(checkouts@), strings::views(before@)),
            strings::views(out@) == start + all.take(i as int),
    {
        broadcast use strings::group_lists;

        let path = checkouts[i].report.path.clone();
        let was = find_checkout(before, path.as_str());
        let moved = movement(was, &checkouts[i]);
        assert(all[i as int] == (path@, moved));
        assert(start + all.take(i + 1) =~= (start + all.take(i as int)).push((path@, moved)));
        out.push((path, moved));
    }
    assert(all.take(all.len() as int) =~= all);
}

fn gone_pair(checkout: &CheckoutDigest) -> (out: (String, Movement))
    ensures
        out@ == gone(checkout@),
{
    (
        checkout.report.path.clone(),
        Movement::Gone { was_holding: checkout.report.unpushed.at_risk() },
    )
}

fn push_absent(
    out: &mut Vec<(String, Movement)>,
    before: &Vec<CheckoutDigest>,
    checkouts: &Vec<CheckoutDigest>,
)
    ensures
        strings::views(final(out)@) == strings::views(old(out)@) + absent(
            strings::views(before@),
            strings::views(checkouts@),
        ),
{
    broadcast use strings::group_lists;

    let ghost start = strings::views(out@);
    let ghost now = strings::views(checkouts@);
    assert(start + Seq::<(Text, Movement)>::empty() =~= start);
    for i in 0..before.len()
        invariant
            now == strings::views(checkouts@),
            strings::views(out@) == start + absent(strings::views(before@).take(i as int), now),
    {
        broadcast use strings::group_lists;

        let ghost all = strings::views(before@);
        assert(all.take(i as int).push(all[i as int]) == all.take(i + 1));
        assert(all[i as int] == before@[i as int]@);
        if find_checkout(checkouts, before[i].report.path.as_str()).is_none() {
            let pair = gone_pair(&before[i]);
            assert(start + absent(all.take(i as int), now).push(pair@) =~= (start + absent(
                all.take(i as int),
                now,
            )).push(pair@));
            out.push(pair);
        }
    }
}

fn compare_repo(repo: &RepoDigest, before: &Vec<RepoDigest>) -> (out: RepoComparison)
    ensures
        out@ == compared(repo@, strings::views(before@)),
{
    broadcast use strings::group_lists;

    let mut checkouts: Vec<(String, Movement)> = Vec::new();
    let none: Vec<CheckoutDigest> = Vec::new();
    let commits = match find_repo(before, &repo.repo_key) {
        None => {
            push_present(&mut checkouts, &repo.checkouts, &none);
            repo.commits
        },
        Some(old) => {
            push_present(&mut checkouts, &repo.checkouts, &old.checkouts);
            push_absent(&mut checkouts, &old.checkouts, &repo.checkouts);
            repo.commits.saturating_sub(old.commits)
        },
    };
    assert(Seq::<(Text, Movement)>::empty() + present(repo@.checkouts, Seq::empty()) =~= present(
        repo@.checkouts,
        Seq::empty(),
    ));
    proof {
        if let Some(old) = repo_with(strings::views(before@), repo@.repo_key) {
            assert(Seq::<(Text, Movement)>::empty() + present(repo@.checkouts, old.checkouts)
                =~= present(repo@.checkouts, old.checkouts));
        }
    }
    RepoComparison { repo_key: repo.repo_key.clone(), name: repo.name.clone(), commits, checkouts }
}

fn close_repo(repo: &RepoDigest) -> (out: RepoComparison)
    ensures
        out@ == closed(repo@),
{
    broadcast use strings::group_lists;

    let ghost all = closed(repo@).checkouts;
    let mut checkouts: Vec<(String, Movement)> = Vec::new();
    for i in 0..repo.checkouts.len()
        invariant
            all == closed(repo@).checkouts,
            strings::views(checkouts@) == all.take(i as int),
    {
        broadcast use strings::group_lists;

        let pair = gone_pair(&repo.checkouts[i]);
        assert(all[i as int] == pair@);
        checkouts.push(pair);
    }
    assert(all.take(all.len() as int) =~= all);
    RepoComparison {
        repo_key: repo.repo_key.clone(),
        name: repo.name.clone(),
        commits: 0,
        checkouts,
    }
}

fn rank_movement(movement: &Movement) -> (n: u8)
    ensures
        n == movement_rank(*movement),
{
    match movement {
        Movement::Gone { was_holding } => if *was_holding > 0 {
            5
        } else {
            1
        },
        Movement::Advanced { .. } | Movement::Appeared { .. } => 4,
        Movement::Landed | Movement::Pushed { .. } => 3,
        Movement::Stalled { .. } => 2,
        Movement::Unchanged => 0,
    }
}

/// Sort key, in the order a reader wants: what is new, what finished, what
/// stalled.
pub fn rank(repo: &RepoComparison) -> (n: u8)
    ensures
        n == top_rank(repo@.checkouts),
{
    broadcast use strings::group_lists;

    let mut top: u8 = 0;
    for i in 0..repo.checkouts.len()
        invariant
            top == top_rank(strings::views(repo.checkouts@).take(i as int)),
    {
        broadcast use strings::group_lists;

        let ghost all = strings::views(repo.checkouts@);
        assert(all.take(i as int).push(all[i as int]) == all.take(i + 1));
        assert(all[i as int] == repo.checkouts@[i as int]@);
        let here = rank_movement(&repo.checkouts[i].1);
        if here > top {
            top = here;
        }
    }
    top
}

fn goes_before(a: &RepoComparison, b: &RepoComparison) -> (answer: bool)
    ensures
        answer == more_moved(a@, b@),
{
    let left = rank(a);
    let right = rank(b);
    if left != right {
        left > right
    } else if a.commits != b.commits {
        a.commits > b.commits
    } else {
        strings::comes_first(a.name.as_str(), b.name.as_str())
    }
}

/// Compares an earlier digest with a later one.
pub fn compare(before: &Digest, after: &Digest) -> (out: Comparison)
    ensures
        out@ == comparison_of(before@, after@),
{
    broadcast use strings::group_lists;

    let ghost now = all_compared(after@.repos, before@.repos);
    let mut repos: Vec<RepoComparison> = Vec::new();
    for i in 0..after.repos.len()
        invariant
            now == all_compared(after@.repos, before@.repos),
            strings::views(repos@) == now.take(i as int),
    {
        broadcast use strings::group_lists;

        let entry = compare_repo(&after.repos[i], &before.repos);
        assert(now[i as int] == entry@);
        repos.push(entry);
    }
    assert(now.take(now.len() as int) =~= now);
    assert(now + Seq::<model::RepoComparisonView>::empty() =~= now);
    for i in 0..before.repos.len()
        invariant
            strings::views(repos@) == now + all_closed(before@.repos.take(i as int), after@.repos),
    {
        broadcast use strings::group_lists;

        let ghost all = before@.repos;
        assert(all.take(i as int).push(all[i as int]) == all.take(i + 1));
        assert(all[i as int] == before.repos@[i as int]@);
        if find_repo(&after.repos, &before.repos[i].repo_key).is_none() {
            let entry = close_repo(&before.repos[i]);
            assert(now + all_closed(all.take(i as int), after@.repos).push(entry@) =~= (now
                + all_closed(all.take(i as int), after@.repos)).push(entry@));
            repos.push(entry);
        }
    }
    let repos = order::arrange(
        repos,
        goes_before,
        Ghost(|a: model::RepoComparisonView, b: model::RepoComparisonView| more_moved(a, b)),
    );
    Comparison {
        schema: SCHEMA_VERSION,
        before: before.generated_at.clone(),
        after: after.generated_at.clone(),
        repos,
    }
}

// ---------------------------------------------------------------------------
// Reading a comparison
// ---------------------------------------------------------------------------

pub open spec fn still(checkouts: Seq<(Text, Movement)>) -> bool {
    forall|i: int| 0 <= i < checkouts.len() ==> (#[trigger] checkouts[i]).1 == Movement::Unchanged
}

pub open spec fn new_total(repos: Seq<model::RepoComparisonView>) -> usize
    decreases repos.len(),
{
    if repos.len() == 0 {
        0
    } else {
        new_total(repos.drop_last()).wrapping_add(repos.last().commits)
    }
}

impl model::ComparisonView {
    pub open spec fn quiet(self) -> bool {
        forall|i: int| 0 <= i < self.repos.len() ==> still((#[trigger] self.repos[i]).checkouts)
    }
}

fn is_still(checkouts: &Vec<(String, Movement)>) -> (answer: bool)
    ensures
        answer == still(strings::views(checkouts@)),
{
    let ghost all = strings::views(checkouts@);
    for i in 0..checkouts.len()
        invariant
            all == strings::views(checkouts@),
            forall|j: int| 0 <= j < i ==> (#[trigger] all[j]).1 == Movement::Unchanged,
    {
        assert(all[i as int] == checkouts@[i as int]@);
        if checkouts[i].1 != Movement::Unchanged {
            return false;
        }
    }
    true
}

impl Comparison {
    /// Whether nothing moved at all.
    pub fn is_quiet(&self) -> (answer: bool)
        ensures
            answer == self@.quiet(),
    {
        for i in 0..self.repos.len()
            invariant
                forall|j: int| 0 <= j < i ==> still((#[trigger] self@.repos[j]).checkouts),
        {
            assert(self@.repos[i as int] == self.repos@[i as int]@);
            if !is_still(&self.repos[i].checkouts) {
                return false;
            }
        }
        true
    }

    /// Total new commits across every repository.
    pub fn total_commits(&self) -> (out: usize)
        ensures
            out == new_total(self@.repos),
    {
        broadcast use strings::group_lists;

        let mut out: usize = 0;
        for i in 0..self.repos.len()
            invariant
                out == new_total(self@.repos.take(i as int)),
        {
            broadcast use strings::group_lists;

            let ghost all = self@.repos;
            assert(all.take(i as int).push(all[i as int]) == all.take(i + 1));
            assert(all[i as int] == self.repos@[i as int]@);
            out = out.wrapping_add(self.repos[i].commits);
        }
        out
    }
}

impl Movement {
    /// The words for a movement. Each one names what moved, never how much
    /// happened in total.
    pub open spec fn words(self) -> Text {
        match self {
            Movement::Appeared { commits } => if commits == 0 {
                "new here"@
            } else {
                "new here, with "@ + strings::decimal(commits as nat) + " in the window"@
            },
            Movement::Advanced { commits, landed } => {
                let counted = strings::decimal(commits as nat) + " new since"@;
                if landed {
                    counted + ", and landed"@
                } else {
                    counted
                }
            },
            Movement::Landed => "landed since"@,
            Movement::Pushed { was_holding } => "pushed since; "@ + strings::decimal(
                was_holding as nat,
            ) + " no longer only here"@,
            Movement::Stalled { unpushed, uncommitted } => {
                let start = "no new commits, still holding "@;
                if unpushed > 0 && uncommitted {
                    start + strings::decimal(unpushed as nat) + " unpushed and uncommitted work"@
                } else if unpushed > 0 {
                    start + strings::decimal(unpushed as nat) + " unpushed"@
                } else if uncommitted {
                    start + "uncommitted work"@
                } else {
                    start
                }
            },
            Movement::Gone { was_holding } => if was_holding == 0 {
                "gone"@
            } else {
                "gone, and was holding "@ + strings::decimal(was_holding as nat)
                    + " that were only there"@
            },
            Movement::Unchanged => "unchanged"@,
        }
    }

    pub open spec fn calls_for_action(self) -> bool {
        match self {
            Movement::Stalled { .. } => true,
            Movement::Gone { was_holding } => was_holding > 0,
            _ => false,
        }
    }

    /// The words a reader scans for.
    pub fn sentence(&self) -> (out: String)
        ensures
            out@ == self.words(),
    {
        match self {
            Movement::Appeared { commits } => if *commits == 0 {
                "new here".to_string()
            } else {
                strings::cat3(
                    "new here, with ",
                    strings::number(*commits as u64).as_str(),
                    " in the window",
                )
            },
            Movement::Advanced { commits, landed } => {
                let counted = strings::cat2(strings::number(*commits as u64).as_str(), " new since");
                if *landed {
                    strings::cat2(counted.as_str(), ", and landed")
                } else {
                    counted
                }
            },
            Movement::Landed => "landed since".to_string(),
            Movement::Pushed { was_holding } => strings::cat3(
                "pushed since; ",
                strings::number(*was_holding).as_str(),
                " no longer only here",
            ),
            Movement::Stalled { unpushed, uncommitted } => {
                let start = "no new commits, still holding ";
                if *unpushed > 0 && *uncommitted {
                    strings::cat3(
                        start,
                        strings::number(*unpushed).as_str(),
                        " unpushed and uncommitted work",
                    )
                } else if *unpushed > 0 {
                    strings::cat3(start, strings::number(*unpushed).as_str(), " unpushed")
                } else if *uncommitted {
                    strings::cat2(start, "uncommitted work")
                } else {
                    start.to_string()
                }
            },
            Movement::Gone { was_holding } => if *was_holding == 0 {
                "gone".to_string()
            } else {
                strings::cat3(
                    "gone, and was holding ",
                    strings::number(*was_holding).as_str(),
                    " that were only there",
                )
            },
            Movement::Unchanged => "unchanged".to_string(),
        }
    }

    /// Whether a reader has to act on this.
    pub fn loud(&self) -> (answer: bool)
        ensures
            answer == self.calls_for_action(),
    {
        match self {
            Movement::Stalled { .. } => true,
            Movement::Gone { was_holding } => *was_holding > 0,
            _ => false,
        }
    }

    /// Mirrors the activity of a checkout: a movement with nothing to say is
    /// summarised rather than listed.
    pub fn activity(&self) -> (out: Activity)
        ensures
            out == if *self == Movement::Unchanged {
                Activity::Quiet
            } else {
                Activity::Active
            },
    {
        match self {
            Movement::Unchanged => Activity::Quiet,
            _ => Activity::Active,
        }
    }
}

// ---------------------------------------------------------------------------
// Reading a saved digest
// ---------------------------------------------------------------------------

/// What `serde_json` reads under a key of the object that a JSON text holds:
/// the number, where there is an unsigned one, or the error of a text that is
/// no JSON.
pub uninterp spec fn json_number(raw: Seq<char>, key: Seq<char>) -> Result<Option<u64>, Seq<char>>;

/// `serde_json::from_str` into a `Value`, then `Value::get` and
/// `Value::as_u64`: the result is named, and depends on the text and the key
/// alone.
#[verifier::external_body]
fn read_number(raw: &str, key: &str) -> (out: Result<Option<u64>, String>)
    ensures
        match out {
            Ok(found) => json_number(raw@, key@) == Ok::<Option<u64>, Seq<char>>(found),
            Err(message) => json_number(raw@, key@) == Err::<Option<u64>, Seq<char>>(message@),
        },
{
    match serde_json::from_str::<serde_json::Value>(raw) {
        Ok(value) => Ok(value.get(key).and_then(serde_json::Value::as_u64)),
        Err(error) => Err(error.to_string()),
    }
}

/// What is wrong with a saved digest, going by the schema found in it. A shape
/// that is not known is refused by name.
pub open spec fn schema_fault(path: Text, found: Result<Option<u64>, Text>) -> Option<Text> {
    match found {
        Err(error) => Some(path + " is not JSON standup wrote: "@ + error),
        Ok(None) => Some(
            path + " has no `schema` field, so it is not a digest standup wrote. "@
                + "`standup --json > that-file` produces one."@,
        ),
        Ok(Some(schema)) => if schema == SCHEMA_VERSION {
            None
        } else {
            Some(
                path + " was written with schema "@ + strings::decimal(schema as nat)
                    + ", and this standup reads "@ + strings::decimal(SCHEMA_VERSION as nat)
                    + ". Regenerate it with `standup --json`."@,
            )
        },
    }
}

/// Judges a saved digest by the schema found in it.
pub fn judge_schema(path: &str, found: Result<Option<u64>, String>) -> (out: Result<(), String>)
    ensures
        match found {
            Ok(found) => crate::config::outcome(
                out,
                match schema_fault(path@, Ok(found)) {
                    Some(message) => Err(message),
                    None => Ok(()),
                },
            ),
            Err(error) => crate::config::outcome(
                out,
                match schema_fault(path@, Err(error@)) {
                    Some(message) => Err(message),
                    None => Ok(()),
                },
            ),
        },
{
    match found {
        Err(error) => Err(strings::cat3(path, " is not JSON standup wrote: ", error.as_str())),
        Ok(None) => Err(
            strings::cat3(
                path,
                " has no `schema` field, so it is not a digest standup wrote. ",
                "`standup --json > that-file` produces one.",
            ),
        ),
        Ok(Some(schema)) => if schema == SCHEMA_VERSION as u64 {
            Ok(())
        } else {
            let start = strings::cat4(
                path,
                " was written with schema ",
                strings::number(schema).as_str(),
                ", and this standup reads ",
            );
            Err(
                strings::cat3(
                    start.as_str(),
                    strings::number(SCHEMA_VERSION as u64).as_str(),
                    ". Regenerate it with `standup --json`.",
                ),
            )
        },
    }
}

/// Checks the text of a saved digest before anything else is read out of it, so
/// a version mismatch is reported as one.
pub fn check_digest(raw: &str, path: &str) -> (out: Result<(), String>)
    ensures
        crate::config::outcome(
            out,
            match schema_fault(path@, json_number(raw@, "schema"@)) {
                Some(message) => Err(message),
                None => Ok(()),
            },
        ),
{
    judge_schema(path, read_number(raw, "schema"))
}

/// The complaint about a saved digest that could not be read.
pub fn unreadable_digest(path: &str, error: &str) -> (out: String)
    ensures
        out@ == "could not read the digest at "@ + path@ + ": "@ + error@,
{
    strings::cat4("could not read the digest at ", path, ": ", error)
}

// ---------------------------------------------------------------------------
// Laws
// ---------------------------------------------------------------------------

/// Whether no two repositories share a key and no two checkouts of one
/// repository share a place.
pub open spec fn told_apart(repos: Seq<model::RepoView>) -> bool {
    &&& forall|i: int, j: int|
        0 <= i < j < repos.len() ==> (#[trigger] repos[i]).repo_key != (
        #[trigger] repos[j]).repo_key
    &&& forall|i: int| 0 <= i < repos.len() ==> apart((#[trigger] repos[i]).checkouts)
}

pub open spec fn apart(checkouts: Seq<model::CheckoutView>) -> bool {
    forall|i: int, j: int|
        0 <= i < j < checkouts.len() ==> !paths::same_place(
            (#[trigger] checkouts[i]).report.path,
            (#[trigger] checkouts[j]).report.path,
        )
}

proof fn lemma_repo_found(repos: Seq<model::RepoView>, i: int)
    requires
        0 <= i < repos.len(),
        forall|i: int, j: int|
            0 <= i < j < repos.len() ==> (#[trigger] repos[i]).repo_key != (
            #[trigger] repos[j]).repo_key,
    ensures
        repo_with(repos, repos[i].repo_key) == Some(repos[i]),
    decreases repos.len(),
{
    if i > 0 {
        assert(repos[0].repo_key != repos[i].repo_key);
        let rest = repos.drop_first();
        assert forall|a: int, b: int| 0 <= a < b < rest.len() implies (#[trigger] rest[a]).repo_key
            != (#[trigger] rest[b]).repo_key by {
            assert(rest[a] == repos[a + 1] && rest[b] == repos[b + 1]);
        }
        assert(rest[i - 1] == repos[i]);
        lemma_repo_found(rest, i - 1);
    }
}

proof fn lemma_checkout_found(checkouts: Seq<model::CheckoutView>, i: int)
    requires
        0 <= i < checkouts.len(),
        apart(checkouts),
    ensures
        checkout_at(checkouts, checkouts[i].report.path) == Some(checkouts[i]),
    decreases checkouts.len(),
{
    if i > 0 {
        assert(!paths::same_place(checkouts[0].report.path, checkouts[i].report.path));
        let rest = checkouts.drop_first();
        assert forall|a: int, b: int| 0 <= a < b < rest.len() implies !paths::same_place(
            (#[trigger] rest[a]).report.path,
            (#[trigger] rest[b]).report.path,
        ) by {
            assert(rest[a] == checkouts[a + 1] && rest[b] == checkouts[b + 1]);
        }
        assert(rest[i - 1] == checkouts[i]);
        lemma_checkout_found(rest, i - 1);
    }
}

proof fn lemma_nothing_fresh(now: Seq<model::CommitView>, was: Seq<model::CommitView>)
    requires
        forall|i: int| 0 <= i < now.len() ==> has_commit(was, (#[trigger] now[i]).oid),
    ensures
        fresh(now, was) == 0,
    decreases now.len(),
{
    if now.len() > 0 {
        let rest = now.drop_last();
        assert forall|i: int| 0 <= i < rest.len() implies has_commit(
            was,
            (#[trigger] rest[i]).oid,
        ) by {
            assert(rest[i] == now[i]);
        }
        lemma_nothing_fresh(rest, was);
        assert(has_commit(was, now[now.len() - 1].oid));
    }
}

/// What a checkout that did not move is reported as: never as new, landed,
/// pushed or gone.
pub open spec fn at_rest(movement: Movement) -> bool {
    movement is Stalled || movement is Unchanged
}

proof fn lemma_checkout_at_rest(checkout: model::CheckoutView)
    ensures
        at_rest(movement_of(Some(checkout), checkout)),
{
    let commits = checkout.report.commits;
    assert forall|i: int| 0 <= i < commits.len() implies has_commit(
        commits,
        (#[trigger] commits[i]).oid,
    ) by {}
    lemma_nothing_fresh(commits, commits);
}

proof fn lemma_none_absent(before: Seq<model::CheckoutView>, now: Seq<model::CheckoutView>)
    requires
        forall|i: int|
            0 <= i < before.len() ==> checkout_at(now, (#[trigger] before[i]).report.path) is Some,
    ensures
        absent(before, now) == Seq::<(Text, Movement)>::empty(),
    decreases before.len(),
{
    if before.len() > 0 {
        let rest = before.drop_last();
        assert forall|i: int| 0 <= i < rest.len() implies checkout_at(
            now,
            (#[trigger] rest[i]).report.path,
        ) is Some by {
            assert(rest[i] == before[i]);
        }
        lemma_none_absent(rest, now);
        assert(checkout_at(now, before[before.len() - 1].report.path) is Some);
    }
}

proof fn lemma_none_closed(before: Seq<model::RepoView>, now: Seq<model::RepoView>)
    requires
        forall|i: int|
            0 <= i < before.len() ==> repo_with(now, (#[trigger] before[i]).repo_key) is Some,
    ensures
        all_closed(before, now) == Seq::<model::RepoComparisonView>::empty(),
    decreases before.len(),
{
    if before.len() > 0 {
        let rest = before.drop_last();
        assert forall|i: int| 0 <= i < rest.len() implies repo_with(
            now,
            (#[trigger] rest[i]).repo_key,
        ) is Some by {
            assert(rest[i] == before[i]);
        }
        lemma_none_closed(rest, now);
        assert(repo_with(now, before[before.len() - 1].repo_key) is Some);
    }
}

/// A digest compared with itself shows nothing new, nothing finished and
/// nothing gone: every repository is there, with no new commits, and every
/// checkout is at rest.
pub proof fn law_a_digest_compared_with_itself_is_at_rest(digest: model::DigestView)
    requires
        told_apart(digest.repos),
    ensures
        comparison_of(digest, digest).repos.len() == digest.repos.len(),
        forall|i: int, j: int|
            0 <= i < comparison_of(digest, digest).repos.len() && 0 <= j < comparison_of(
                digest,
                digest,
            ).repos[i].checkouts.len() ==> at_rest(
                (#[trigger] comparison_of(digest, digest).repos[i].checkouts[j]).1,
            ),
        forall|i: int|
            0 <= i < comparison_of(digest, digest).repos.len() ==> (#[trigger] comparison_of(
                digest,
                digest,
            ).repos[i]).commits == 0,
{
    let repos = digest.repos;
    assert forall|i: int| 0 <= i < repos.len() implies repo_with(
        repos,
        (#[trigger] repos[i]).repo_key,
    ) is Some by {
        lemma_repo_found(repos, i);
    }
    lemma_none_closed(repos, repos);
    let listed = all_compared(repos, repos);
    assert(listed + all_closed(repos, repos) =~= listed);
    let before = |a: model::RepoComparisonView, b: model::RepoComparisonView| more_moved(a, b);
    let sorted = order::arranged(listed, before);
    order::law_arranged_keeps_items(listed, before);
    assert forall|i: int| 0 <= i < sorted.len() implies (#[trigger] sorted[i]).commits == 0 && (
    forall|j: int|
        0 <= j < sorted[i].checkouts.len() ==> at_rest((#[trigger] sorted[i].checkouts[j]).1)) by {
        sorted.to_multiset_ensures();
        listed.to_multiset_ensures();
        assert(sorted.contains(sorted[i]));
        assert(sorted.to_multiset().count(sorted[i]) > 0);
        assert(listed.contains(sorted[i]));
        let k = choose|k: int| 0 <= k < listed.len() && listed[k] == sorted[i];
        let repo = repos[k];
        lemma_repo_found(repos, k);
        assert(apart(repo.checkouts));
        assert forall|j: int| 0 <= j < repo.checkouts.len() implies checkout_at(
            repo.checkouts,
            (#[trigger] repo.checkouts[j]).report.path,
        ) == Some(repo.checkouts[j]) by {
            lemma_checkout_found(repo.checkouts, j);
        }
        lemma_none_absent(repo.checkouts, repo.checkouts);
        let shown = present(repo.checkouts, repo.checkouts);
        assert(shown + absent(repo.checkouts, repo.checkouts) =~= shown);
        assert forall|j: int| 0 <= j < shown.len() implies at_rest((#[trigger] shown[j]).1) by {
            assert(checkout_at(repo.checkouts, repo.checkouts[j].report.path) == Some(
                repo.checkouts[j],
            ));
            lemma_checkout_at_rest(repo.checkouts[j]);
        }
    }
}

/// Whether a checkout holds nothing that would be lost with it.
pub open spec fn settled(checkout: model::CheckoutView) -> bool {
    checkout.report.unpushed.at_risk() == 0 && checkout.report.dirty.clean()
}

pub open spec fn all_settled(repos: Seq<model::RepoView>) -> bool {
    forall|i: int, j: int|
        0 <= i < repos.len() && 0 <= j < repos[i].checkouts.len() ==> settled(
            #[trigger] repos[i].checkouts[j],
        )
}

proof fn lemma_still_is_settled(repos: Seq<model::RepoView>, k: int)
    requires
        told_apart(repos),
        0 <= k < repos.len(),
    ensures
        compared(repos[k], repos).commits == 0,
        still(compared(repos[k], repos).checkouts) <==> (forall|j: int|
            0 <= j < repos[k].checkouts.len() ==> settled(#[trigger] repos[k].checkouts[j])),
{
    let checkouts = repos[k].checkouts;
    lemma_repo_found(repos, k);
    assert(apart(checkouts));
    assert forall|j: int| 0 <= j < checkouts.len() implies checkout_at(
        checkouts,
        (#[trigger] checkouts[j]).report.path,
    ) == Some(checkouts[j]) by {
        lemma_checkout_found(checkouts, j);
    }
    lemma_none_absent(checkouts, checkouts);
    let shown = present(checkouts, checkouts);
    assert(shown + absent(checkouts, checkouts) =~= shown);
    assert forall|j: int| 0 <= j < checkouts.len() implies ((#[trigger] shown[j]).1
        == Movement::Unchanged <==> settled(checkouts[j])) by {
        assert(checkout_at(checkouts, checkouts[j].report.path) == Some(checkouts[j]));
        lemma_checkout_at_rest(checkouts[j]);
    }
    if still(shown) {
        assert forall|j: int| 0 <= j < checkouts.len() implies settled(
            #[trigger] checkouts[j],
        ) by {
            assert(shown[j].1 == Movement::Unchanged);
        }
    }
    if forall|j: int| 0 <= j < checkouts.len() ==> settled(#[trigger] checkouts[j]) {
        assert forall|j: int| 0 <= j < shown.len() implies (#[trigger] shown[j]).1
            == Movement::Unchanged by {
            assert(settled(checkouts[j]));
        }
    }
}

proof fn lemma_nothing_new(repos: Seq<model::RepoComparisonView>)
    requires
        forall|i: int| 0 <= i < repos.len() ==> (#[trigger] repos[i]).commits == 0,
    ensures
        new_total(repos) == 0,
    decreases repos.len(),
{
    if repos.len() > 0 {
        let rest = repos.drop_last();
        assert forall|i: int| 0 <= i < rest.len() implies (#[trigger] rest[i]).commits == 0 by {
            assert(rest[i] == repos[i]);
        }
        lemma_nothing_new(rest);
        assert(repos[repos.len() - 1].commits == 0);
    }
}

/// A digest compared with itself is quiet exactly where nothing in it is
/// unpushed or uncommitted, and counts no new commit.
pub proof fn law_a_digest_compared_with_itself_is_quiet_if_settled(digest: model::DigestView)
    requires
        told_apart(digest.repos),
    ensures
        comparison_of(digest, digest).quiet() <==> all_settled(digest.repos),
        new_total(comparison_of(digest, digest).repos) == 0,
{
    let repos = digest.repos;
    law_a_digest_compared_with_itself_is_at_rest(digest);
    lemma_nothing_new(comparison_of(digest, digest).repos);
    assert forall|i: int| 0 <= i < repos.len() implies repo_with(
        repos,
        (#[trigger] repos[i]).repo_key,
    ) is Some by {
        lemma_repo_found(repos, i);
    }
    lemma_none_closed(repos, repos);
    let listed = all_compared(repos, repos);
    assert(listed + all_closed(repos, repos) =~= listed);
    let before = |a: model::RepoComparisonView, b: model::RepoComparisonView| more_moved(a, b);
    let sorted = order::arranged(listed, before);
    if comparison_of(digest, digest).quiet() {
        assert forall|i: int, j: int|
            0 <= i < repos.len() && 0 <= j < repos[i].checkouts.len() implies settled(
            #[trigger] repos[i].checkouts[j],
        ) by {
            assert(listed.contains(listed[i]));
            order::lemma_arranged_contains(listed, before, listed[i]);
            let k = choose|k: int| 0 <= k < sorted.len() && sorted[k] == listed[i];
            assert(still(sorted[k].checkouts));
            lemma_still_is_settled(repos, i);
        }
    }
    if all_settled(repos) {
        order::law_arranged_keeps_items(listed, before);
        assert forall|k: int| 0 <= k < sorted.len() implies still(
            (#[trigger] sorted[k]).checkouts,
        ) by {
            sorted.to_multiset_ensures();
            listed.to_multiset_ensures();
            assert(sorted.contains(sorted[k]));
            assert(sorted.to_multiset().count(sorted[k]) > 0);
            assert(listed.contains(sorted[k]));
            let i = choose|i: int| 0 <= i < listed.len() && listed[i] == sorted[k];
            lemma_still_is_settled(repos, i);
        }
    }
}

/// Nothing in either digest is dropped: there is one entry for each repository
/// of the later digest and one for each that only the earlier digest has.
pub proof fn law_a_comparison_covers_both_digests(
    before: model::DigestView,
    after: model::DigestView,
)
    ensures
        comparison_of(before, after).repos.to_multiset() == (all_compared(
            after.repos,
            before.repos,
        ) + all_closed(before.repos, after.repos)).to_multiset(),
{
    let listed = all_compared(after.repos, before.repos) + all_closed(before.repos, after.repos);
    order::law_arranged_keeps_items(
        listed,
        |a: model::RepoComparisonView, b: model::RepoComparisonView| more_moved(a, b),
    );
}

proof fn lemma_moved_order(
    a: model::RepoComparisonView,
    b: model::RepoComparisonView,
    c: model::RepoComparisonView,
)
    ensures
        !more_moved(a, a),
        more_moved(a, b) && more_moved(b, c) ==> more_moved(a, c),
        !more_moved(a, b) && !more_moved(b, c) ==> !more_moved(a, c),
{
    strings::law_precedes_is_a_strict_total_order(a.name, b.name, c.name);
    strings::law_precedes_is_a_strict_total_order(b.name, a.name, c.name);
}

/// A comparison names what was lost first, then what is new, then what
/// finished, then what stalled; among equals the most new commits first, and
/// among those by name.
pub proof fn law_what_was_lost_comes_first(
    before: model::DigestView,
    after: model::DigestView,
    i: int,
    j: int,
)
    requires
        0 <= i < j < comparison_of(before, after).repos.len(),
    ensures
        ({
            let above = comparison_of(before, after).repos[i];
            let below = comparison_of(before, after).repos[j];
            let same = top_rank(above.checkouts) == top_rank(below.checkouts);
            &&& top_rank(above.checkouts) >= top_rank(below.checkouts)
            &&& same ==> above.commits >= below.commits
            &&& same && above.commits == below.commits ==> !strings::precedes(
                below.name,
                above.name,
            )
        }),
{
    let first = |a: model::RepoComparisonView, b: model::RepoComparisonView| more_moved(a, b);
    assert(order::is_ordering(first)) by {
        assert forall|a: model::RepoComparisonView| !#[trigger] first(a, a) by {
            lemma_moved_order(a, a, a);
        }
        assert forall|
            a: model::RepoComparisonView,
            b: model::RepoComparisonView,
            c: model::RepoComparisonView,
        | #[trigger] first(a, b) && #[trigger] first(b, c) implies first(a, c) by {
            lemma_moved_order(a, b, c);
        }
        assert forall|
            a: model::RepoComparisonView,
            b: model::RepoComparisonView,
            c: model::RepoComparisonView,
        | !#[trigger] first(a, b) && !#[trigger] first(b, c) implies !first(a, c) by {
            lemma_moved_order(a, b, c);
        }
    }
    order::law_arranged_is_in_order(
        all_compared(after.repos, before.repos) + all_closed(before.repos, after.repos),
        first,
    );
    let repos = comparison_of(before, after).repos;
    assert(!first(repos[j], repos[i]));
}

/// A repository is found by its key and a checkout by its place: the first that
/// fits, and none where none does.
pub proof fn law_what_is_looked_for_is_the_first_that_fits(
    repos: Seq<model::RepoView>,
    key: RepoKey<Text>,
    checkouts: Seq<model::CheckoutView>,
    path: Text,
    k: int,
)
    ensures
        0 <= k < repos.len() && repos[k].repo_key == key && (forall|j: int|
            0 <= j < k ==> (#[trigger] repos[j]).repo_key != key) ==> repo_with(repos, key) == Some(
            repos[k],
        ),
        (forall|j: int| 0 <= j < repos.len() ==> (#[trigger] repos[j]).repo_key != key)
            ==> repo_with(repos, key) is None,
        0 <= k < checkouts.len() && paths::same_place(checkouts[k].report.path, path) && (forall|
            j: int,
        |
            0 <= j < k ==> !paths::same_place((#[trigger] checkouts[j]).report.path, path))
            ==> checkout_at(checkouts, path) == Some(checkouts[k]),
        (forall|j: int|
            0 <= j < checkouts.len() ==> !paths::same_place(
                (#[trigger] checkouts[j]).report.path,
                path,
            )) ==> checkout_at(checkouts, path) is None,
    decreases repos.len() + checkouts.len(),
{
    if repos.len() > 0 {
        let rest = repos.drop_first();
        assert(forall|j: int| 0 <= j < rest.len() ==> #[trigger] rest[j] == repos[j + 1]);
        law_what_is_looked_for_is_the_first_that_fits(rest, key, Seq::empty(), path, k - 1);
        if forall|j: int| 0 <= j < k ==> (#[trigger] repos[j]).repo_key != key {
            assert(forall|j: int|
                0 <= j < k - 1 && j < rest.len() ==> (#[trigger] rest[j]).repo_key != key) by {
                assert(forall|j: int| 0 <= j < rest.len() ==> #[trigger] rest[j] == repos[j + 1]);
            }
        }
        if forall|j: int| 0 <= j < repos.len() ==> (#[trigger] repos[j]).repo_key != key {
            assert(forall|j: int|
                0 <= j < rest.len() ==> (#[trigger] rest[j]).repo_key != key) by {
                assert(forall|j: int| 0 <= j < rest.len() ==> #[trigger] rest[j] == repos[j + 1]);
            }
        }
    }
    if checkouts.len() > 0 {
        let rest = checkouts.drop_first();
        assert(forall|j: int| 0 <= j < rest.len() ==> #[trigger] rest[j] == checkouts[j + 1]);
        law_what_is_looked_for_is_the_first_that_fits(Seq::empty(), key, rest, path, k - 1);
        if forall|j: int|
            0 <= j < k ==> !paths::same_place((#[trigger] checkouts[j]).report.path, path) {
            assert forall|j: int| 0 <= j < k - 1 && j < rest.len() implies !paths::same_place(
                (#[trigger] rest[j]).report.path,
                path,
            ) by {
                assert(rest[j] == checkouts[j + 1]);
            }
        }
        if forall|j: int|
            0 <= j < checkouts.len() ==> !paths::same_place(
                (#[trigger] checkouts[j]).report.path,
                path,
            ) {
            assert forall|j: int| 0 <= j < rest.len() implies !paths::same_place(
                (#[trigger] rest[j]).report.path,
                path,
            ) by {
                assert(rest[j] == checkouts[j + 1]);
            }
        }
    }
}

/// A commit is new exactly where no commit of its id was there before; the new
/// ones are counted one by one.
pub proof fn law_a_commit_is_new_where_its_id_is(
    now: Seq<model::CommitView>,
    was: Seq<model::CommitView>,
    commit: model::CommitView,
)
    ensures
        fresh(Seq::empty(), was) == 0,
        fresh(now.push(commit), was) == fresh(now, was) + (if exists|i: int|
            0 <= i < was.len() && (#[trigger] was[i]).oid == commit.oid {
            0nat
        } else {
            1nat
        }),
{
    assert(now.push(commit).drop_last() =~= now);
}

/// What became of a checkout is told by what it holds now and held before: new
/// commits before all else, then that the work got into the trunk, then that what
/// was only here is pushed, then that something is still unfinished. Nothing is
/// unchanged that is not.
pub proof fn law_a_movement_is_told_by_both_sides(
    was: model::CheckoutView,
    now: model::CheckoutView,
)
    requires
        now.report.commits.len() <= usize::MAX,
    ensures
        ({
            let in_before = was.report.landed is Merged || was.report.landed is Equivalent
                || was.report.landed is IsDefault;
            let in_now = now.report.landed is Merged || now.report.landed is Equivalent
                || now.report.landed is IsDefault;
            let new = fresh(now.report.commits, was.report.commits);
            let (held, holding) = (was.report.unpushed.at_risk(), now.report.unpushed.at_risk());
            let uncommitted = !now.report.dirty.clean();
            &&& movement_of(None, now) == (Movement::Appeared {
                commits: now.report.commits.len() as usize,
            })
            &&& match movement_of(Some(was), now) {
                Movement::Advanced { commits, landed } => commits == new && new > 0 && landed == (
                in_now && !in_before),
                Movement::Landed => new == 0 && in_now && !in_before,
                Movement::Pushed { was_holding } => new == 0 && !(in_now && !in_before)
                    && was_holding == held && held > 0 && holding == 0,
                Movement::Stalled { unpushed, uncommitted: dirty } => new == 0 && !(in_now
                    && !in_before) && !(held > 0 && holding == 0) && unpushed == holding && dirty
                    == uncommitted && (holding > 0 || uncommitted),
                Movement::Unchanged => new == 0 && !(in_now && !in_before) && held == 0 && holding
                    == 0 && !uncommitted,
                Movement::Appeared { .. } | Movement::Gone { .. } => false,
            }
        }),
{
    lemma_fresh_bound(now.report.commits, was.report.commits);
}

proof fn lemma_fresh_bound(now: Seq<model::CommitView>, was: Seq<model::CommitView>)
    ensures
        fresh(now, was) <= now.len(),
    decreases now.len(),
{
    if now.len() > 0 {
        lemma_fresh_bound(now.drop_last(), was);
    }
}

/// Each checkout that is there is told of, under its own path and against the one
/// that was at its place; and one that is there no longer is gone, with the
/// commits that were only in it.
pub proof fn law_every_checkout_of_either_side_is_told_of(
    now: Seq<model::CheckoutView>,
    was: Seq<model::CheckoutView>,
    i: int,
)
    ensures
        present(now, was).len() == now.len(),
        0 <= i < now.len() ==> present(now, was)[i] == (
            now[i].report.path,
            movement_of(checkout_at(was, now[i].report.path), now[i]),
        ),
        0 <= i < was.len() && (forall|j: int|
            0 <= j < now.len() ==> !paths::same_place(
                (#[trigger] now[j]).report.path,
                was[i].report.path,
            )) ==> absent(was, now).contains(
            (
                was[i].report.path,
                Movement::Gone { was_holding: was[i].report.unpushed.at_risk() },
            ),
        ),
        forall|k: int|
            0 <= k < absent(was, now).len() ==> (#[trigger] absent(was, now)[k]).1 is Gone
                && forall|j: int|
                0 <= j < now.len() ==> !paths::same_place(
                    (#[trigger] now[j]).report.path,
                    absent(was, now)[k].0,
                ),
    decreases was.len(),
{
    if was.len() > 0 {
        let rest = was.drop_last();
        let last = was.last();
        let earlier = absent(rest, now);
        law_every_checkout_of_either_side_is_told_of(now, rest, i);
        law_what_is_looked_for_is_the_first_that_fits(
            Seq::empty(),
            last.report.repo_key,
            now,
            last.report.path,
            0,
        );
        lemma_found_is_there(now, last.report.path);
        if 0 <= i < was.len() && (forall|j: int|
            0 <= j < now.len() ==> !paths::same_place(
                (#[trigger] now[j]).report.path,
                was[i].report.path,
            )) {
            let found = (
                was[i].report.path,
                Movement::Gone { was_holding: was[i].report.unpushed.at_risk() },
            );
            if i < rest.len() {
                assert(rest[i] == was[i]);
                let k = choose|k: int| 0 <= k < earlier.len() && earlier[k] == found;
                assert(absent(was, now)[k] == found);
            } else {
                assert(absent(was, now)[earlier.len() as int] == found);
            }
        }
        assert forall|k: int| 0 <= k < absent(was, now).len() implies (#[trigger] absent(
            was,
            now,
        )[k]).1 is Gone && forall|j: int|
            0 <= j < now.len() ==> !paths::same_place(
                (#[trigger] now[j]).report.path,
                absent(was, now)[k].0,
            ) by {
            if k < earlier.len() {
                assert(absent(was, now)[k] == earlier[k]);
            }
        }
    }
}

proof fn lemma_found_is_there(checkouts: Seq<model::CheckoutView>, path: Text)
    ensures
        checkout_at(checkouts, path) is None ==> forall|j: int|
            0 <= j < checkouts.len() ==> !paths::same_place(
                (#[trigger] checkouts[j]).report.path,
                path,
            ),
    decreases checkouts.len(),
{
    if checkouts.len() > 0 {
        let rest = checkouts.drop_first();
        lemma_found_is_there(rest, path);
        if checkout_at(checkouts, path) is None {
            assert forall|j: int| 0 <= j < checkouts.len() implies !paths::same_place(
                (#[trigger] checkouts[j]).report.path,
                path,
            ) by {
                if j > 0 {
                    assert(rest[j - 1] == checkouts[j]);
                }
            }
        }
    }
}

/// A repository is compared with the one of its key: it keeps its own name and
/// key, its new commits are those that it has more of, and all of its checkouts
/// and of the earlier ones are told of. Where there was none everything is new.
pub proof fn law_a_repository_is_compared_with_its_own_past(
    repo: model::RepoView,
    before: Seq<model::RepoView>,
)
    ensures
        ({
            let told = compared(repo, before);
            &&& told.repo_key == repo.repo_key
            &&& told.name == repo.name
            &&& match repo_with(before, repo.repo_key) {
                None => told.commits == repo.commits && told.checkouts.len() == repo.checkouts.len()
                    && forall|i: int|
                    0 <= i < repo.checkouts.len() ==> (#[trigger] told.checkouts[i]).0
                        == repo.checkouts[i].report.path && told.checkouts[i].1 is Appeared,
                Some(old) => {
                    &&& told.commits == 0 || old.commits + told.commits == repo.commits
                    &&& told.commits == 0 ==> repo.commits <= old.commits
                    &&& present(repo.checkouts, old.checkouts).is_prefix_of(told.checkouts)
                    &&& told.checkouts.skip(repo.checkouts.len() as int) == absent(
                        old.checkouts,
                        repo.checkouts,
                    )
                },
            }
        }),
{
    if let Some(old) = repo_with(before, repo.repo_key) {
        let there = present(repo.checkouts, old.checkouts);
        let away = absent(old.checkouts, repo.checkouts);
        assert((there + away).skip(there.len() as int) =~= away);
    }
}

/// A repository that only the earlier digest has is told of as gone, checkout by
/// checkout; one that both have is not.
pub proof fn law_a_repository_that_is_gone_is_told_of(
    before: Seq<model::RepoView>,
    after: Seq<model::RepoView>,
    i: int,
)
    requires
        0 <= i < before.len(),
        forall|j: int|
            0 <= j < after.len() ==> (#[trigger] after[j]).repo_key != before[i].repo_key,
    ensures
        exists|k: int|
            0 <= k < all_closed(before, after).len() && is_gone(
                #[trigger] all_closed(before, after)[k],
                before[i],
            ),
    decreases before.len(),
{
    let rest = before.drop_last();
    let earlier = all_closed(rest, after);
    let all = all_closed(before, after);
    if i < rest.len() {
        assert(rest[i] == before[i]);
        law_a_repository_that_is_gone_is_told_of(rest, after, i);
        let k = choose|k: int| 0 <= k < earlier.len() && is_gone(#[trigger] earlier[k], before[i]);
        assert(all[k] == earlier[k]);
    } else {
        law_what_is_looked_for_is_the_first_that_fits(
            after,
            before[i].repo_key,
            Seq::empty(),
            before[i].name,
            0,
        );
        assert(is_gone(all[earlier.len() as int], before[i]));
    }
}

/// Whether an entry tells that a repository and all its checkouts are gone.
pub open spec fn is_gone(told: model::RepoComparisonView, repo: model::RepoView) -> bool {
    &&& told.repo_key == repo.repo_key
    &&& told.name == repo.name
    &&& told.commits == 0
    &&& told.checkouts.len() == repo.checkouts.len()
    &&& forall|c: int|
        0 <= c < repo.checkouts.len() ==> (#[trigger] told.checkouts[c]).0
            == repo.checkouts[c].report.path && told.checkouts[c].1 == (Movement::Gone {
            was_holding: repo.checkouts[c].report.unpushed.at_risk(),
        })
}

/// A repository stands as high as the highest of its movements: work that was
/// lost above new work, that above finished work, that above stalled work, that
/// above a checkout that left nothing behind, and that above no change.
pub proof fn law_a_repository_ranks_by_its_highest_movement(
    checkouts: Seq<(Text, Movement)>,
    i: int,
    held: u64,
    commits: usize,
    landed: bool,
    unpushed: u64,
    uncommitted: bool,
)
    requires
        held > 0,
    ensures
        0 <= i < checkouts.len() ==> top_rank(checkouts) >= movement_rank(checkouts[i].1),
        checkouts.len() > 0 ==> exists|k: int|
            0 <= k < checkouts.len() && top_rank(checkouts) == movement_rank(
                (#[trigger] checkouts[k]).1,
            ),
        movement_rank(Movement::Gone { was_holding: held }) > movement_rank(
            Movement::Advanced { commits, landed },
        ),
        movement_rank(Movement::Advanced { commits, landed }) == movement_rank(
            Movement::Appeared { commits },
        ),
        movement_rank(Movement::Appeared { commits }) > movement_rank(Movement::Landed),
        movement_rank(Movement::Landed) == movement_rank(Movement::Pushed { was_holding: held }),
        movement_rank(Movement::Landed) > movement_rank(
            Movement::Stalled { unpushed, uncommitted },
        ),
        movement_rank(Movement::Stalled { unpushed, uncommitted }) > movement_rank(
            Movement::Gone { was_holding: 0 },
        ),
        movement_rank(Movement::Gone { was_holding: 0 }) > movement_rank(Movement::Unchanged),
        movement_rank(Movement::Unchanged) == 0,
    decreases checkouts.len(),
{
    if checkouts.len() > 0 {
        let rest = checkouts.drop_last();
        law_a_repository_ranks_by_its_highest_movement(
            rest,
            i,
            held,
            commits,
            landed,
            unpushed,
            uncommitted,
        );
        assert(forall|k: int| 0 <= k < rest.len() ==> #[trigger] checkouts[k] == rest[k]);
        assert(checkouts[checkouts.len() - 1] == checkouts.last());
        if top_rank(rest) >= movement_rank(checkouts.last().1) && rest.len() > 0 {
            let k = choose|k: int|
                0 <= k < rest.len() && top_rank(rest) == movement_rank((#[trigger] rest[k]).1);
            assert(top_rank(checkouts) == movement_rank(checkouts[k].1));
        } else {
            assert(top_rank(checkouts) == movement_rank(checkouts[checkouts.len() - 1].1));
        }
    }
}

/// The new commits of a comparison are those of its repositories added up.
pub proof fn law_new_commits_add_up(
    a: Seq<model::RepoComparisonView>,
    b: Seq<model::RepoComparisonView>,
    one: model::RepoComparisonView,
)
    ensures
        new_total(a + b) == new_total(a).wrapping_add(new_total(b)),
        new_total(seq![one]) == one.commits,
        new_total(Seq::empty()) == 0,
    decreases b.len(),
{
    assert(seq![one].drop_last() =~= Seq::empty());
    assert(new_total(seq![one].drop_last()) == 0);
    if b.len() == 0 {
        assert(a + b =~= a);
    } else {
        law_new_commits_add_up(a, b.drop_last(), one);
        assert((a + b).drop_last() =~= a + b.drop_last());
        assert((a + b).last() == b.last());
    }
}

/// A movement is told with its number wherever it has one: how much is new, how
/// much is safe now and how much was lost.
pub proof fn law_a_movement_is_told_with_its_number(commits: usize, landed: bool, held: u64)
    ensures
        commits > 0 ==> strings::holds(
            (Movement::Appeared { commits }).words(),
            strings::decimal(commits as nat),
        ),
        strings::holds(
            (Movement::Advanced { commits, landed }).words(),
            strings::decimal(commits as nat),
        ),
        landed ==> strings::holds(
            (Movement::Advanced { commits, landed }).words(),
            ", and landed"@,
        ),
        strings::holds(
            (Movement::Pushed { was_holding: held }).words(),
            strings::decimal(held as nat),
        ),
        held > 0 ==> strings::holds(
            (Movement::Gone { was_holding: held }).words(),
            strings::decimal(held as nat),
        ),
{
    let (n, h) = (strings::decimal(commits as nat), strings::decimal(held as nat));
    let counted = n + " new since"@;
    lemma_told_between("new here, with "@, n, " in the window"@);
    lemma_told_between(Seq::empty(), n, " new since"@);
    assert(Seq::<char>::empty() + n + " new since"@ =~= counted);
    strings::lemma_holds_together(counted, ", and landed"@, n);
    strings::lemma_holds_itself(", and landed"@);
    strings::lemma_holds_together(counted, ", and landed"@, ", and landed"@);
    lemma_told_between("pushed since; "@, h, " no longer only here"@);
    lemma_told_between("gone, and was holding "@, h, " that were only there"@);
}

proof fn lemma_told_between(before: Text, told: Text, after: Text)
    ensures
        strings::holds(before + told + after, told),
{
    strings::lemma_holds_itself(told);
    strings::lemma_holds_together(before, told, told);
    strings::lemma_holds_together(before + told, after, told);
}

/// What is still unfinished is told in full: how many commits are only here, and
/// whether there is work that was never committed.
pub proof fn law_unfinished_work_is_told_in_full(held: u64, uncommitted: bool)
    ensures
        ({
            let told = (Movement::Stalled { unpushed: held, uncommitted }).words();
            &&& held > 0 ==> strings::holds(told, strings::decimal(held as nat))
            &&& held > 0 && uncommitted ==> strings::holds(told, " unpushed and uncommitted work"@)
            &&& held > 0 && !uncommitted ==> strings::ends(told, " unpushed"@)
            &&& held == 0 && uncommitted ==> strings::holds(told, "uncommitted work"@)
        }),
{
    let h = strings::decimal(held as nat);
    let start = "no new commits, still holding "@;
    if held > 0 && uncommitted {
        lemma_told_between(start, h, " unpushed and uncommitted work"@);
        strings::lemma_holds_itself(" unpushed and uncommitted work"@);
        strings::lemma_holds_together(
            start + h,
            " unpushed and uncommitted work"@,
            " unpushed and uncommitted work"@,
        );
    } else if held > 0 {
        lemma_told_between(start, h, " unpushed"@);
        let told = start + h + " unpushed"@;
        assert(told.skip(told.len() - " unpushed"@.len()) =~= " unpushed"@);
    } else if uncommitted {
        strings::lemma_holds_itself("uncommitted work"@);
        strings::lemma_holds_together(start, "uncommitted work"@, "uncommitted work"@);
    }
}

/// What calls for someone to act is unfinished work and work that was lost, and
/// nothing else.
pub proof fn law_only_unfinished_work_calls_for_action(movement: Movement)
    ensures
        movement.calls_for_action() <==> movement is Stalled || movement is Gone
            && movement->Gone_was_holding > 0,
{
}

/// A file is accepted exactly where it says that it was written for the version
/// that is read here; otherwise the complaint names the file, and the version it
/// was written for.
pub proof fn law_only_this_version_is_read(path: Text, found: Result<Option<u64>, Text>)
    ensures
        schema_fault(path, found) is None <==> found == Ok::<Option<u64>, Text>(
            Some(SCHEMA_VERSION as u64),
        ),
        schema_fault(path, found) is Some ==> strings::holds(schema_fault(path, found)->0, path),
        found is Ok && found->Ok_0 is Some && schema_fault(path, found) is Some ==> strings::holds(
            schema_fault(path, found)->0,
            strings::decimal((found->Ok_0)->0 as nat),
        ),
        found is Err ==> strings::holds(schema_fault(path, found)->0, found->Err_0),
{
    broadcast use strings::lemma_holds_together;

    strings::lemma_holds_itself(path);
    if found is Err {
        strings::lemma_holds_itself(found->Err_0);
    } else if found->Ok_0 is Some {
        strings::lemma_holds_itself(strings::decimal((found->Ok_0)->0 as nat));
    }
}

/// A comparison is dated by the two digests it is made of.
pub proof fn law_a_comparison_goes_from_the_earlier_to_the_later(
    before: model::DigestView,
    after: model::DigestView,
)
    ensures
        comparison_of(before, after).before == before.generated_at,
        comparison_of(before, after).after == after.generated_at,
        comparison_of(before, after).schema == SCHEMA_VERSION,
        comparison_of(before, after).repos.len() == after.repos.len() + all_closed(
            before.repos,
            after.repos,
        ).len(),
{
    order::law_arranged_keeps_items(
        all_compared(after.repos, before.repos) + all_closed(before.repos, after.repos),
        |a: model::RepoComparisonView, b: model::RepoComparisonView| more_moved(a, b),
    );
}

} // verus!
