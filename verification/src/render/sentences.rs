//! What the sentences of a rendering say: each of them tells the numbers and the
//! names it is about, and tells different things apart.

use vstd::prelude::*;

use crate::by_agent;
use crate::model;
use crate::model::{
    Activity, AgentRef, Churn, Dirty, Equivalence, Head, Landed, Stamp, Text, Tracking, Unpushed, Window,
    WindowSource, OID_COLUMNS,
};
use crate::order;
use crate::render;
use crate::strings;

verus! {

proof fn lemma_told(before: Text, told: Text, after: Text)
    ensures
        strings::holds(before + told + after, told),
        strings::holds(before + told, told),
{
    strings::lemma_holds_itself(told);
    strings::lemma_holds_together(before, told, told);
    strings::lemma_holds_together(before + told, after, told);
}

proof fn lemma_starts(start: Text, rest: Text)
    ensures
        strings::begins(start + rest, start),
        strings::ends(start + rest, rest),
{
    assert((start + rest).take(start.len() as int) =~= start);
    assert((start + rest).skip(start.len() as int) =~= rest);
}

// ---------------------------------------------------------------------------
// Cutting
// ---------------------------------------------------------------------------

proof fn lemma_front_is_the_start(s: Text, budget: nat)
    ensures
        ({
            let kept = strings::front(s, budget, render::column_cost());
            &&& kept.is_prefix_of(s)
            &&& kept.len() < s.len() ==> render::columns(kept) + render::columns_of(
                s[kept.len() as int],
            ) > budget
        }),
    decreases s.len(),
{
    let cost = render::column_cost();
    if s.len() > 0 && cost(s[0]) <= budget {
        let rest = s.drop_first();
        let left = (budget - cost(s[0])) as nat;
        let inner = strings::front(rest, left, cost);
        lemma_front_is_the_start(rest, left);
        render::lemma_columns_add(seq![s[0]], inner);
        let none: Text = Seq::empty();
        render::law_a_character_adds_its_columns(none, s[0]);
        assert(none.push(s[0]) =~= seq![s[0]]);
        assert(render::columns(none) == 0);
        let kept = seq![s[0]] + inner;
        assert(kept =~= s.take(kept.len() as int));
        if inner.len() < rest.len() {
            assert(rest[inner.len() as int] == s[kept.len() as int]);
        }
    } else {
        assert(strings::front(s, budget, cost) =~= Seq::empty());
        assert(render::columns(Seq::empty()) == 0);
    }
}

proof fn lemma_back_is_the_end(s: Text, budget: nat)
    ensures
        ({
            let kept = strings::back(s, budget, render::column_cost());
            &&& kept.is_suffix_of(s)
            &&& kept.len() < s.len() ==> render::columns(kept) + render::columns_of(
                s[s.len() - kept.len() - 1],
            ) > budget
        }),
    decreases s.len(),
{
    let cost = render::column_cost();
    if s.len() > 0 && cost(s.last()) <= budget {
        let rest = s.drop_last();
        let left = (budget - cost(s.last())) as nat;
        let inner = strings::back(rest, left, cost);
        lemma_back_is_the_end(rest, left);
        render::law_a_character_adds_its_columns(inner, s.last());
        let kept = inner.push(s.last());
        assert(kept =~= s.skip(s.len() - kept.len()));
        if inner.len() < rest.len() {
            assert(rest[rest.len() - inner.len() - 1] == s[s.len() - kept.len() - 1]);
        }
    } else {
        assert(strings::back(s, budget, cost) =~= Seq::empty());
        assert(render::columns(Seq::empty()) == 0);
    }
}

/// A text that does not fit keeps as much of its start as fits, and an ellipsis
/// stands for the rest.
pub proof fn law_a_cut_text_keeps_its_start(s: Text, max: nat)
    requires
        render::columns(s) > max,
        max > 0,
    ensures
        ({
            let cut = render::cut_right(s, max);
            let kept = cut.drop_last();
            &&& cut.len() > 0
            &&& cut.last() == '\u{2026}'
            &&& kept.is_prefix_of(s)
            &&& max > 1 ==> kept.len() == s.len() || render::columns(kept) + render::columns_of(
                s[kept.len() as int],
            ) >= max
        }),
{
    let cut = render::cut_right(s, max);
    if max > 1 {
        let kept = strings::front(s, (max - 1) as nat, render::column_cost());
        lemma_front_is_the_start(s, (max - 1) as nat);
        assert(cut.drop_last() =~= kept);
    } else {
        assert(cut.drop_last() =~= Seq::empty());
    }
}

/// One that is cut in the middle keeps its start and as much of its end as fits
/// in two thirds of the width, with an ellipsis between the two.
pub proof fn law_a_text_cut_in_the_middle_keeps_both_ends(s: Text, max: nat)
    requires
        render::columns(s) > max,
        max > 2,
    ensures
        exists|start: Text, end: Text|
            {
                &&& render::cut_middle(s, max) == #[trigger] (start.push('\u{2026}') + end)
                &&& start.is_prefix_of(s)
                &&& end.is_suffix_of(s)
                &&& end.len() < s.len() ==> render::columns(end) + render::columns_of(
                    s[s.len() - end.len() - 1],
                ) > (max - 1) * 2 / 3
            },
{
    let budget = (max - 1) as nat;
    let tail = budget * 2 / 3;
    let start = strings::front(s, (budget - tail) as nat, render::column_cost());
    let end = strings::back(s, tail, render::column_cost());
    lemma_front_is_the_start(s, (budget - tail) as nat);
    lemma_back_is_the_end(s, tail);
    assert(render::cut_middle(s, max) == start.push('\u{2026}') + end);
}

/// A path below home is written from there, home itself is the tilde, and every
/// other path stays as it is.
pub proof fn law_a_path_is_written_from_home(home: Text, rest: Text, path: Text)
    requires
        !strings::blank(home),
        home.last() != '/',
    ensures
        render::from_home(home + "/"@ + rest, Some(home)) == "~/"@ + rest,
        render::from_home(home, Some(home)) == "~"@,
        path != home && !strings::begins(path, home + "/"@) ==> render::from_home(path, Some(home))
            == path,
        render::from_home(path, None) == path,
        render::from_home(path, Some(home + "/"@)) == render::from_home(path, Some(home)),
{
    crate::config::law_a_blank_setting_is_not_given(Some(home));
    crate::config::law_a_blank_setting_is_not_given(Some(home + "/"@));
    reveal_strlit("/");
    assert(home + "/"@ =~= home.push('/'));
    assert((home + "/"@).drop_last() =~= home);
    assert(!strings::blank(home + "/"@)) by {
        let k = choose|k: int| 0 <= k < home.len() && !strings::white(#[trigger] home[k]);
        assert((home + "/"@)[k] == home[k]);
    }
    lemma_starts(home + "/"@, rest);
    let whole = home + "/"@ + rest;
    assert(whole.skip((home + "/"@).len() as int) =~= rest);
    assert(whole.len() > home.len());
}

// ---------------------------------------------------------------------------
// Numbers
// ---------------------------------------------------------------------------

/// A number is told as it is, with the word for one only where it is one; none at
/// all is told in words where commits are counted.
pub proof fn law_a_count_tells_its_number(n: nat, one: Text, many: Text)
    ensures
        n != 1 ==> strings::begins(render::counted(n, one, many), strings::decimal(n))
            && strings::ends(render::counted(n, one, many), many),
        n == 1 ==> strings::begins(render::counted(n, one, many), "1 "@) && strings::ends(
            render::counted(n, one, many),
            one,
        ),
        n > 0 ==> render::commits_text(n) == render::counted(n, "commit"@, "commits"@),
        n == 0 ==> render::commits_text(n) == "no commits"@,
{
    lemma_starts("1 "@, one);
    let told = strings::decimal(n) + " "@;
    lemma_starts(told, many);
    lemma_starts(strings::decimal(n), " "@ + many);
    assert(strings::decimal(n) + (" "@ + many) =~= told + many);
}

/// The lines of a change are told as they were added and as they were removed, in
/// that order.
pub proof fn law_a_change_tells_both_numbers(insertions: nat, deletions: nat)
    ensures
        ({
            let told = render::delta_text(insertions, deletions);
            &&& strings::begins(told, "+"@ + strings::decimal(insertions))
            &&& strings::ends(told, " \u{2212}"@ + strings::decimal(deletions))
            &&& told.len() == 3 + strings::decimal(insertions).len() + strings::decimal(
                deletions,
            ).len()
        }),
{
    reveal_strlit("+");
    reveal_strlit(" \u{2212}");
    let start = "+"@ + strings::decimal(insertions);
    let end = " \u{2212}"@ + strings::decimal(deletions);
    lemma_starts(start, end);
    assert(start + end =~= render::delta_text(insertions, deletions));
}

/// The files of a change are told with the number of those that are generated,
/// where there are any.
pub proof fn law_a_change_tells_its_files(churn: Churn)
    ensures
        strings::begins(
            render::files_text(churn),
            render::counted(churn.files as nat, "file"@, "files"@),
        ),
        churn.excluded > 0 ==> strings::holds(
            render::files_text(churn),
            strings::decimal(churn.excluded as nat),
        ),
        churn.excluded == 0 ==> render::files_text(churn) == render::counted(
            churn.files as nat,
            "file"@,
            "files"@,
        ),
{
    let files = render::counted(churn.files as nat, "file"@, "files"@);
    let n = strings::decimal(churn.excluded as nat);
    lemma_told(files + " ("@, n, " generated)"@);
    lemma_starts(files, " ("@ + n + " generated)"@);
    assert(files + (" ("@ + n + " generated)"@) =~= files + " ("@ + n + " generated)"@);
    assert(files.take(files.len() as int) =~= files);
}

/// A total tells its commits, its files and its lines, and the commits alone where
/// no file was changed.
pub proof fn law_a_total_tells_all_its_numbers(commits: usize, churn: Churn)
    ensures
        ({
            let lines = render::delta_text(churn.insertions as nat, churn.deletions as nat);
            let none = churn.files == 0 && churn.insertions == 0 && churn.deletions == 0;
            &&& none ==> render::block_text(commits, churn) == render::commits_text(commits as nat)
                && render::stats_text(commits, churn) == render::commits_text(commits as nat)
            &&& !none ==> {
                &&& strings::begins(
                    render::block_text(commits, churn),
                    render::commits_text(commits as nat),
                )
                &&& strings::holds(render::block_text(commits, churn), render::files_text(churn))
                &&& strings::ends(render::block_text(commits, churn), lines)
                &&& strings::begins(
                    render::stats_text(commits, churn),
                    render::commits_text(commits as nat),
                )
                &&& strings::holds(render::stats_text(commits, churn), render::files_text(churn))
                &&& strings::ends(render::stats_text(commits, churn), lines)
            }
        }),
{
    let count = render::commits_text(commits as nat);
    let files = render::files_text(churn);
    let lines = render::delta_text(churn.insertions as nat, churn.deletions as nat);
    lemma_three_told(count, "  \u{b7}  "@, files, "  "@, lines);
    lemma_three_told(count, ", "@, files, ", "@, lines);
}

proof fn lemma_three_told(a: Text, x: Text, b: Text, y: Text, c: Text)
    ensures
        strings::begins(a + x + b + y + c, a),
        strings::holds(a + x + b + y + c, b),
        strings::ends(a + x + b + y + c, c),
{
    lemma_starts(a, x + b + y + c);
    assert(a + (x + b + y + c) =~= a + x + b + y + c);
    lemma_told(a + x, b, y + c);
    assert(a + x + b + (y + c) =~= a + x + b + y + c);
    lemma_starts(a + x + b + y, c);
}

// ---------------------------------------------------------------------------
// What a checkout is on, and where its work is
// ---------------------------------------------------------------------------

/// A checkout goes by its branch, without white space around the name; a detached
/// one by the start of its commit. A branch without a name is never blank.
pub proof fn law_a_checkout_goes_by_its_branch(name: Text, oid: Text)
    ensures
        !strings::blank(name) ==> render::head_text(Head::Branch { name, oid })
            == strings::trimmed(name) && render::head_text(Head::Unborn { name })
            == strings::trimmed(name) && render::head_text(Head::BranchDeleted { name })
            == strings::trimmed(name),
        strings::blank(name) ==> render::head_text(Head::Branch { name, oid })
            == "(unnamed branch)"@,
        strings::holds(
            render::head_text(Head::Detached { oid }),
            strings::leading(oid, OID_COLUMNS as nat),
        ),
        strings::begins(render::head_text(Head::Detached { oid }), "(detached at "@),
{
    strings::law_trimming_takes_white_space_off_the_ends(name);
    let short = strings::leading(oid, OID_COLUMNS as nat);
    lemma_told("(detached at "@, short, ")"@);
    lemma_starts("(detached at "@, short + ")"@);
    assert("(detached at "@ + (short + ")"@) =~= "(detached at "@ + short + ")"@);
}

/// Something is remarked exactly of a branch without commits and of one that was
/// deleted; the latter is a reason to worry, and names the branch.
pub proof fn law_a_deleted_branch_is_remarked(head: Head<Text>, max: nat)
    ensures
        render::head_remark(head, max) is Some <==> head is Unborn || head is BranchDeleted,
        head is Unborn ==> !(render::head_remark(head, max)->0).1,
        head is BranchDeleted ==> (render::head_remark(head, max)->0).1 && strings::holds(
            (render::head_remark(head, max)->0).0,
            render::ref_text(head->BranchDeleted_name, max),
        ),
{
    if head is BranchDeleted {
        lemma_told(
            "the branch "@,
            render::ref_text(head->BranchDeleted_name, max),
            " was deleted underneath this checkout"@,
        );
    }
}

/// Where work got is told with the branch it got into, or did not; that it did
/// not, and that nobody knows, never reads as if it did.
pub proof fn law_where_work_got_is_told_with_the_branch(landed: Landed<Text>, max: nat)
    ensures
        ({
            let told = render::landed_text(landed, max);
            match landed {
                Landed::IsDefault { name } => strings::begins(told, "on the default branch "@)
                    && strings::ends(told, render::ref_text(name, max)),
                Landed::Merged { into } => strings::begins(told, "merged into "@) && strings::ends(
                    told,
                    render::ref_text(into, max),
                ),
                Landed::Equivalent { into, how: Equivalence::EveryCommit { .. } } => strings::begins(
                    told,
                    "every commit is on "@,
                ) && strings::holds(told, render::ref_text(into, max)),
                Landed::Equivalent { into, how: Equivalence::Squashed { oid } } => strings::begins(
                    told,
                    "on "@,
                ) && strings::holds(told, render::ref_text(into, max)) && strings::holds(
                    told,
                    strings::leading(oid, OID_COLUMNS as nat),
                ),
                Landed::NotMerged { into } => strings::begins(told, "not merged into "@)
                    && strings::ends(told, render::ref_text(into, max)),
                Landed::Unknown { reason } => strings::begins(told, "merge status unknown: "@)
                    && strings::ends(told, reason),
            }
        }),
{
    match landed {
        Landed::IsDefault { name } => {
            lemma_starts("on the default branch "@, render::ref_text(name, max));
        },
        Landed::Merged { into } => {
            lemma_starts("merged into "@, render::ref_text(into, max));
        },
        Landed::Equivalent { into, how: Equivalence::EveryCommit { .. } } => {
            let name = render::ref_text(into, max);
            let tail = " by patch, not by sha"@;
            lemma_told("every commit is on "@, name, tail);
            lemma_starts("every commit is on "@, name + tail);
            assert("every commit is on "@ + (name + tail) =~= "every commit is on "@ + name + tail);
        },
        Landed::Equivalent { into, how: Equivalence::Squashed { oid } } => {
            let name = render::ref_text(into, max);
            let short = strings::leading(oid, OID_COLUMNS as nat);
            let tail = ", not by sha"@;
            lemma_told("on "@, name, " by patch as "@ + short + tail);
            assert("on "@ + name + (" by patch as "@ + short + tail) =~= "on "@ + name
                + " by patch as "@ + short + tail);
            lemma_told("on "@ + name + " by patch as "@, short, tail);
            lemma_starts("on "@, name + " by patch as "@ + short + tail);
            assert("on "@ + (name + " by patch as "@ + short + tail) =~= "on "@ + name
                + " by patch as "@ + short + tail);
        },
        Landed::NotMerged { into } => {
            lemma_starts("not merged into "@, render::ref_text(into, max));
        },
        Landed::Unknown { reason } => {
            lemma_starts("merge status unknown: "@, reason);
        },
    }
}

/// How a branch stands to its upstream is told with the upstream, and with each
/// of the two numbers that is not nothing.
pub proof fn law_ahead_and_behind_are_both_told(name: Text, ahead: u64, behind: u64, max: nat)
    ensures
        ({
            let told = render::tracking_text(Tracking::Upstream { name, ahead, behind }, max);
            &&& strings::ends(told, render::ref_text(name, max))
            &&& ahead > 0 ==> strings::begins(told, strings::decimal(ahead as nat) + " ahead"@)
            &&& behind > 0 ==> strings::holds(
                told,
                strings::decimal(behind as nat) + " behind "@,
            )
            &&& ahead == 0 && behind == 0 ==> strings::begins(told, "in sync with "@)
        }),
        strings::holds(
            render::tracking_text(Tracking::UpstreamMissing { name }, max),
            render::ref_text(name, max),
        ),
{
    reveal_strlit(" ahead");
    reveal_strlit(" ahead of ");
    reveal_strlit(" of ");
    reveal_strlit(" ahead, ");
    reveal_strlit(", ");
    assert(" ahead of "@ =~= " ahead"@ + " of "@);
    assert(" ahead, "@ =~= " ahead"@ + ", "@);
    let shown = render::ref_text(name, max);
    let a = strings::decimal(ahead as nat) + " ahead"@;
    let b = strings::decimal(behind as nat) + " behind "@;
    lemma_told("upstream "@, shown, " no longer exists"@);
    if ahead == 0 && behind == 0 {
        lemma_starts("in sync with "@, shown);
    } else if behind == 0 {
        lemma_starts(strings::decimal(ahead as nat) + " ahead of "@, shown);
        lemma_starts(a, " of "@ + shown);
        assert(a + (" of "@ + shown) =~= strings::decimal(ahead as nat) + " ahead of "@ + shown);
    } else if ahead == 0 {
        lemma_starts(b, shown);
        lemma_told(Seq::empty(), b, shown);
        assert(Seq::<char>::empty() + b + shown =~= b + shown);
    } else {
        let told = strings::decimal(ahead as nat) + " ahead, "@ + strings::decimal(behind as nat)
            + " behind "@ + shown;
        assert(told =~= a + ", "@ + b + shown);
        lemma_starts(a + ", "@ + b, shown);
        lemma_starts(a, ", "@ + b + shown);
        assert(a + (", "@ + b + shown) =~= told);
        lemma_told(a + ", "@, b, shown);
    }
}

/// Each kind of uncommitted work that there is any of is told with its number,
/// and nothing is told of work that is not there.
pub proof fn law_each_kind_of_uncommitted_work_is_told(dirty: Dirty)
    ensures
        ({
            let parts = render::dirty_parts(dirty);
            let clean = dirty.tracked_changed == 0 && dirty.untracked == 0 && dirty.conflicted == 0;
            &&& render::dirty_text(dirty) is None <==> clean
            &&& dirty.tracked_changed > 0 ==> parts.contains(
                render::counted(dirty.tracked_changed as nat, "file"@, "files"@) + " changed"@,
            )
            &&& dirty.untracked > 0 ==> parts.contains(
                strings::decimal(dirty.untracked as nat) + " untracked"@,
            )
            &&& dirty.conflicted > 0 ==> parts.contains(
                render::counted(dirty.conflicted as nat, "file"@, "files"@) + " conflicted"@,
            )
            &&& dirty.insertions > 0 || dirty.deletions > 0 ==> parts.contains(
                render::delta_text(dirty.insertions as nat, dirty.deletions as nat),
            )
            &&& parts.len() == (if dirty.tracked_changed > 0 {
                1int
            } else {
                0int
            }) + (if dirty.untracked > 0 {
                1int
            } else {
                0int
            }) + (if dirty.conflicted > 0 {
                1int
            } else {
                0int
            }) + (if dirty.insertions > 0 || dirty.deletions > 0 {
                1int
            } else {
                0int
            })
            &&& !clean ==> strings::ends(
                render::dirty_text(dirty)->0,
                strings::joined(parts, ", "@),
            )
        }),
{
    let parts = render::dirty_parts(dirty);
    let one = if dirty.tracked_changed > 0 {
        1int
    } else {
        0int
    };
    let two = one + (if dirty.untracked > 0 {
        1int
    } else {
        0int
    });
    let three = two + (if dirty.conflicted > 0 {
        1int
    } else {
        0int
    });
    if dirty.tracked_changed > 0 {
        assert(parts[0] == render::counted(dirty.tracked_changed as nat, "file"@, "files"@)
            + " changed"@);
    }
    if dirty.untracked > 0 {
        assert(parts[one] == strings::decimal(dirty.untracked as nat) + " untracked"@);
    }
    if dirty.conflicted > 0 {
        assert(parts[two] == render::counted(dirty.conflicted as nat, "file"@, "files"@)
            + " conflicted"@);
    }
    if dirty.insertions > 0 || dirty.deletions > 0 {
        assert(parts[three] == render::delta_text(
            dirty.insertions as nat,
            dirty.deletions as nat,
        ));
    }
    lemma_starts("uncommitted: "@, strings::joined(parts, ", "@));
}

/// Commits that are on no remote are told with their number, exactly where there
/// are any.
pub proof fn law_unpushed_commits_are_told_with_their_number(count: u64, reason: Text)
    ensures
        count > 0 ==> render::unpushed_text(Unpushed::Commits { count }) is Some && strings::holds(
            render::unpushed_text(Unpushed::Commits { count })->0,
            render::counted(count as nat, "commit"@, "commits"@),
        ),
        render::unpushed_text(Unpushed::Commits { count: 0 }) is None,
        render::unpushed_text(Unpushed::NoRemote) is None,
        render::unpushed_text(Unpushed::Unknown { reason }) is None,
{
    lemma_told(
        "unpushed: "@,
        render::counted(count as nat, "commit"@, "commits"@),
        " on no remote"@,
    );
}

/// The merges among some commits are counted one by one.
pub proof fn law_merges_are_counted(commits: Seq<model::CommitView>, commit: model::CommitView)
    ensures
        render::merges(Seq::empty()) == 0,
        render::merges(commits.push(commit)) == render::merges(commits) + (if commit.is_merge {
            1nat
        } else {
            0nat
        }),
{
    assert(commits.push(commit).drop_last() =~= commits);
}

/// What came out of a checkout is told with its commits, its merges where there
/// are any, and its files and lines where there are any.
pub proof fn law_what_came_out_is_told_in_full(report: model::ReportView)
    ensures
        ({
            let told = render::output_text(report);
            let merges = render::merges(report.commits);
            let none = report.churn.files == 0 && report.churn.insertions == 0
                && report.churn.deletions == 0;
            &&& report.commits.len() == 0 ==> told == "no commits in this window"@
            &&& report.commits.len() > 0 ==> {
                &&& strings::begins(
                    told,
                    render::counted(report.commits.len(), "commit"@, "commits"@),
                )
                &&& merges > 0 ==> strings::holds(
                    told,
                    render::counted(merges, "merge"@, "merges"@),
                )
                &&& !none ==> strings::holds(told, render::files_text(report.churn))
                    && strings::ends(
                    told,
                    render::delta_text(
                        report.churn.insertions as nat,
                        report.churn.deletions as nat,
                    ),
                )
            }
        }),
{
    let count = render::counted(report.commits.len(), "commit"@, "commits"@);
    let merged = render::counted(render::merges(report.commits), "merge"@, "merges"@);
    let files = render::files_text(report.churn);
    let lines = render::delta_text(
        report.churn.insertions as nat,
        report.churn.deletions as nat,
    );
    let long = count + " ("@ + merged + ")"@;
    assert(count.take(count.len() as int) =~= count);
    lemma_starts(count, " ("@ + merged + ")"@);
    assert(count + (" ("@ + merged + ")"@) =~= long);
    lemma_told(count + " ("@, merged, ")"@);
    lemma_three_told(count, ", "@, files, ", "@, lines);
    lemma_three_told(long, ", "@, files, ", "@, lines);
    let all = long + ", "@ + files + ", "@ + lines;
    assert(all.take(count.len() as int) =~= count);
    strings::lemma_holds_together(long, ", "@, merged);
    strings::lemma_holds_together(long + ", "@, files, merged);
    strings::lemma_holds_together(long + ", "@ + files, ", "@, merged);
    strings::lemma_holds_together(long + ", "@ + files + ", "@, lines, merged);
}

/// A checkout is described by what came out of it, where that got and how it
/// stands to its upstream, in that order.
pub proof fn law_a_checkout_is_described_in_three_clauses(report: model::ReportView, max: nat)
    ensures
        render::clauses(report, max).len() == 3,
        render::clauses(report, max)[0] == render::output_text(report),
        render::clauses(report, max)[1] == render::landed_text(report.landed, max),
        render::clauses(report, max)[2] == render::tracking_text(report.tracking, max),
{
}

// ---------------------------------------------------------------------------
// Who did it
// ---------------------------------------------------------------------------

/// An agent is named as the user named it, with the program behind it where that
/// says more; one without a name is not named.
pub proof fn law_an_agent_is_named_with_its_program(agent: AgentRef<Text>)
    ensures
        render::agent_text(agent) is Some <==> agent.display() is Some,
        agent.display() is Some ==> strings::begins(
            render::agent_text(agent)->0,
            agent.display()->0,
        ),
        agent.display() is Some && agent.program is Some && !strings::blank(agent.program->0)
            && strings::trimmed(agent.program->0) != agent.display()->0 ==> strings::ends(
            render::agent_text(agent)->0,
            " ("@ + strings::trimmed(agent.program->0) + ")"@,
        ),
        agent.display() is Some && (agent.program is None || strings::blank(agent.program->0)
            || strings::trimmed(agent.program->0) == agent.display()->0) ==> render::agent_text(
            agent,
        ) == agent.display(),
{
    if agent.display() is Some {
        let display = agent.display()->0;
        assert(display.take(display.len() as int) =~= display);
        if agent.program is Some {
            strings::law_trimming_takes_white_space_off_the_ends(agent.program->0);
            let tail = " ("@ + strings::trimmed(agent.program->0) + ")"@;
            lemma_starts(display, tail);
            assert(display + tail =~= display + " ("@ + strings::trimmed(agent.program->0) + ")"@);
        }
    }
}

/// How often a label stands for an agent.
pub open spec fn bearing(agents: Seq<AgentRef<Text>>, label: Text) -> nat {
    agents.filter(|agent: AgentRef<Text>| render::agent_text(agent) == Some(label)).len()
}

/// Agents of one name are counted together: each name stands once, with the
/// number of agents that bear it, and none is missing.
pub proof fn law_agents_of_one_name_are_counted(agents: Seq<AgentRef<Text>>, label: Text)
    requires
        agents.len() <= usize::MAX,
    ensures
        ({
            let list = render::labelled(agents);
            let at = render::label_at(list, label);
            &&& bearing(agents, label) == 0 <==> at == list.len()
            &&& bearing(agents, label) > 0 ==> 0 <= at < list.len() && list[at].0 == label
                && list[at].1 == bearing(agents, label)
        }),
        forall|i: int, j: int|
            0 <= i < j < render::labelled(agents).len() ==> (#[trigger] render::labelled(
                agents,
            )[i]).0 != (#[trigger] render::labelled(agents)[j]).0,
    decreases agents.len(),
{
    reveal(Seq::filter);
    let list = render::labelled(agents);
    render::lemma_label_at(list, label);
    if agents.len() > 0 {
        let rest = agents.drop_last();
        let before = render::labelled(rest);
        law_agents_of_one_name_are_counted(rest, label);
        render::lemma_label_at(before, label);
        let bears = |agent: AgentRef<Text>| render::agent_text(agent) == Some(label);
        assert(bearing(agents, label) == bearing(rest, label) + if bears(agents.last()) {
            1nat
        } else {
            0nat
        });
        if let Some(name) = render::agent_text(agents.last()) {
            law_agents_of_one_name_are_counted(rest, name);
            render::lemma_label_at(before, name);
            let at = render::label_at(before, name);
            lemma_bearing_bound(rest, name);
            if at < before.len() {
                lemma_label_found(list, name, at);
                assert(list[at].0 == name);
                if label != name {
                    let k = render::label_at(before, label);
                    if k < before.len() {
                        assert(list[k] == before[k]);
                        lemma_label_found(list, label, k);
                    } else {
                        lemma_label_not_found(before, label);
                        lemma_label_absent(list, label);
                    }
                }
            } else {
                lemma_label_not_found(before, name);
                lemma_label_found(list, name, before.len() as int);
                if label != name {
                    let k = render::label_at(before, label);
                    if k < before.len() {
                        assert(list[k] == before[k]);
                        lemma_label_found(list, label, k);
                    } else {
                        lemma_label_not_found(before, label);
                        lemma_label_absent(list, label);
                    }
                }
            }
        }
    }
}

proof fn lemma_bearing_bound(agents: Seq<AgentRef<Text>>, label: Text)
    ensures
        bearing(agents, label) <= agents.len(),
    decreases agents.len(),
{
    reveal(Seq::filter);
    if agents.len() > 0 {
        lemma_bearing_bound(agents.drop_last(), label);
    }
}

proof fn lemma_label_not_found(list: Seq<(Text, usize)>, label: Text)
    requires
        render::label_at(list, label) == list.len(),
    ensures
        forall|i: int| 0 <= i < list.len() ==> (#[trigger] list[i]).0 != label,
    decreases list.len(),
{
    if list.len() > 0 {
        let rest = list.drop_first();
        lemma_label_not_found(rest, label);
        assert forall|i: int| 0 <= i < list.len() implies (#[trigger] list[i]).0 != label by {
            if i > 0 {
                assert(rest[i - 1] == list[i]);
            }
        }
    }
}

proof fn lemma_label_absent(list: Seq<(Text, usize)>, label: Text)
    requires
        forall|i: int| 0 <= i < list.len() ==> (#[trigger] list[i]).0 != label,
    ensures
        render::label_at(list, label) == list.len(),
    decreases list.len(),
{
    if list.len() > 0 {
        let rest = list.drop_first();
        assert(forall|i: int| 0 <= i < rest.len() ==> #[trigger] rest[i] == list[i + 1]);
        lemma_label_absent(rest, label);
    }
}

proof fn lemma_label_found(list: Seq<(Text, usize)>, label: Text, k: int)
    requires
        0 <= k < list.len(),
        list[k].0 == label,
        forall|i: int| 0 <= i < k ==> (#[trigger] list[i]).0 != label,
    ensures
        render::label_at(list, label) == k,
    decreases list.len(),
{
    if k > 0 {
        let rest = list.drop_first();
        assert(forall|i: int| 0 <= i < rest.len() ==> #[trigger] rest[i] == list[i + 1]);
        assert(list[0].0 != label);
        lemma_label_found(rest, label, k - 1);
    }
}

/// The names of those who worked in a checkout are its agents' where any has a
/// name, else the authors' of its commits; the number of agents of one name
/// stands behind it where it is more than one.
pub proof fn law_agents_are_credited_before_authors(
    checkout: model::CheckoutView,
    label: Text,
    n: usize,
)
    ensures
        ({
            let labels = render::labelled(checkout.agents);
            let authors = model::authors_of(checkout.report.commits);
            let told = render::credited(checkout);
            &&& labels.len() > 0 ==> told is Some && (told->0).0 == "agents"@ && (told->0).1
                == strings::joined(render::credits(labels), ", "@)
            &&& labels.len() == 0 && authors.len() > 0 ==> told is Some && (told->0).0
                == "authors"@ && (told->0).1 == strings::joined(authors, ", "@)
            &&& labels.len() == 0 && authors.len() == 0 ==> told is None
        }),
        strings::begins(render::credit((label, n)), label),
        n != 1 ==> strings::ends(render::credit((label, n)), strings::decimal(n as nat)),
        n == 1 ==> render::credit((label, n)) == label,
{
    assert(label.take(label.len() as int) =~= label);
    let number = strings::decimal(n as nat);
    lemma_starts(label, " \u{d7}"@ + number);
    assert(label + (" \u{d7}"@ + number) =~= label + " \u{d7}"@ + number);
    lemma_starts(label + " \u{d7}"@, number);
}

// ---------------------------------------------------------------------------
// When
// ---------------------------------------------------------------------------

/// An instant is its date, a space and its time of day.
pub proof fn law_an_instant_is_a_date_and_a_time(stamp: Stamp<Text>, date: Text, time: Text)
    requires
        stamp.local == date.push(' ') + time,
        !date.contains(' '),
        !time.contains(' '),
    ensures
        render::date_text(stamp) == date,
        render::time_text(stamp) == time,
        render::instant_text(stamp, false) == time,
        render::instant_text(stamp, true) == stamp.local,
{
    strings::law_a_text_is_parted_at_the_first_separator(date, ' ', time);
    strings::law_what_stands_behind_the_last_separator(date, ' ', time);
}

/// The date is left out only where it says nothing: the window starts and ends on
/// one day, and every commit was made on it.
pub proof fn law_dates_are_left_out_of_one_day_only(
    digest: model::DigestView,
    r: int,
    c: int,
    k: int,
)
    requires
        !render::needs_dates(digest),
        0 <= r < digest.repos.len(),
        0 <= c < digest.repos[r].checkouts.len(),
        0 <= k < digest.repos[r].checkouts[c].report.commits.len(),
    ensures
        render::date_text(digest.repos[r].checkouts[c].report.commits[k].committed)
            == render::date_text(digest.window.since),
        digest.window.until is Some ==> render::date_text(digest.window.until->0)
            == render::date_text(digest.window.since),
        digest.window.until is None ==> render::date_text(digest.generated_at)
            == render::date_text(digest.window.since),
{
    let day = render::date_text(digest.window.since);
    assert(render::checkouts_on(digest.repos[r].checkouts, day));
    assert(render::commit_on(digest.repos[r].checkouts[c].report.commits, day));
}

/// And they are left out there: a digest of one day has no dates.
pub proof fn law_one_day_needs_no_dates(digest: model::DigestView)
    requires
        ({
            let day = render::date_text(digest.window.since);
            &&& day == (match digest.window.until {
                Some(until) => render::date_text(until),
                None => render::date_text(digest.generated_at),
            })
            &&& forall|r: int, c: int, k: int|
                0 <= r < digest.repos.len() && 0 <= c < digest.repos[r].checkouts.len() && 0 <= k
                    < digest.repos[r].checkouts[c].report.commits.len() ==> render::date_text(
                    (#[trigger] digest.repos[r].checkouts[c].report.commits[k]).committed,
                ) == day
        }),
    ensures
        !render::needs_dates(digest),
{
    let day = render::date_text(digest.window.since);
    assert forall|r: int| 0 <= r < digest.repos.len() implies render::checkouts_on(
        (#[trigger] digest.repos[r]).checkouts,
        day,
    ) by {
        assert forall|c: int|
            0 <= c < digest.repos[r].checkouts.len() implies render::commit_on(
            (#[trigger] digest.repos[r].checkouts[c]).report.commits,
            day,
        ) by {
            assert forall|k: int|
                0 <= k < digest.repos[r].checkouts[c].report.commits.len() implies render::date_text(
                (#[trigger] digest.repos[r].checkouts[c].report.commits[k]).committed,
            ) == day by {}
        }
    }
}

/// When a digest was made is told by the time alone on the day and in the zone its
/// window starts, and in full everywhere else.
pub proof fn law_when_a_digest_was_made_is_told(digest: model::DigestView)
    ensures
        ({
            let (made, since) = (digest.generated_at, digest.window.since);
            let same = made.zone == since.zone && render::date_text(made) == render::date_text(
                since,
            );
            &&& same ==> render::generated_text(digest) == render::time_text(made)
            &&& !same ==> render::generated_text(digest) == made.local + " "@ + made.zone
        }),
{
}

/// Where a window came from is told unless it is the usual one: with what was
/// asked for, and with the run before it.
pub proof fn law_where_a_window_came_from_is_told(window: Window<Text>)
    ensures
        render::window_text(window) is None <==> window.source is Default,
        window.source is Explicit ==> strings::holds(
            render::window_text(window)->0,
            window.source->Explicit_spec,
        ),
        window.source is SinceLast ==> strings::ends(
            render::window_text(window)->0,
            window.source->previous_run.local + " "@ + window.source->previous_run.zone,
        ),
{
    match window.source {
        WindowSource::Explicit { spec } => {
            lemma_told("window from --since \""@, spec, "\""@);
        },
        WindowSource::SinceLast { previous_run } => {
            lemma_starts(
                "window from --since-last; the previous run was "@,
                previous_run.full(),
            );
        },
        _ => {},
    }
}

/// Only a quiet one is called quiet.
pub proof fn law_only_the_quiet_is_called_quiet(activity: Activity)
    ensures
        render::quiet_text(activity) is Some <==> activity == Activity::Quiet,
{
}

/// The latest of some commits is not before any of them, and is one of them.
pub proof fn law_the_latest_commit_is_not_before_any(commits: Seq<model::CommitView>, i: int)
    requires
        0 <= i < commits.len(),
    ensures
        render::latest(commits) >= commits[i].committed.epoch,
        exists|k: int|
            0 <= k < commits.len() && render::latest(commits) == (
            #[trigger] commits[k]).committed.epoch,
    decreases commits.len(),
{
    let rest = commits.drop_last();
    assert(commits[commits.len() - 1] == commits.last());
    if rest.len() > 0 {
        let at = if i < rest.len() {
            i
        } else {
            0
        };
        law_the_latest_commit_is_not_before_any(rest, at);
        assert(rest[at] == commits[at]);
        if commits.last().committed.epoch < render::latest(rest) {
            let k = choose|k: int|
                0 <= k < rest.len() && render::latest(rest) == (
                #[trigger] rest[k]).committed.epoch;
            assert(commits[k].committed.epoch == render::latest(commits));
        } else {
            assert(render::latest(commits) == commits[commits.len() - 1].committed.epoch);
        }
    } else {
        assert(render::latest(commits) == commits[0].committed.epoch);
    }
}

// ---------------------------------------------------------------------------
// What is shown
// ---------------------------------------------------------------------------

/// The commits that are shown are the newest: none that is held back is newer
/// than one that is shown.
pub proof fn law_the_newest_commits_are_shown(
    commits: Seq<model::CommitView>,
    max: nat,
    i: int,
    j: int,
)
    requires
        0 <= i < render::shown_commits(commits, max).len(),
        render::shown_commits(commits, max).len() <= j < commits.len(),
    ensures
        render::shown_commits(commits, max)[i].committed.epoch >= render::commits_sorted(
            commits,
        )[j].committed.epoch,
        render::shown_commits(commits, max)[i] == render::commits_sorted(commits)[i],
{
    render::law_no_commit_is_dropped(commits, max);
    crate::render::sorted::law_commits_are_newest_first(commits, i, j);
}

/// The column for branches is wide enough for every one of them, up to its limit.
pub proof fn law_the_branch_column_fits_its_branches(checkouts: Seq<model::CheckoutView>, i: int)
    requires
        0 <= i < checkouts.len(),
    ensures
        ({
            let wide = render::columns(render::head_text(checkouts[i].report.head));
            &&& render::branch_width(checkouts) >= wide || render::branch_width(checkouts)
                == render::BRANCH_COLUMNS
            &&& 4 <= render::branch_width(checkouts) <= render::BRANCH_COLUMNS
        }),
{
    lemma_widest(checkouts, i);
}

proof fn lemma_widest(checkouts: Seq<model::CheckoutView>, i: int)
    requires
        0 <= i < checkouts.len(),
    ensures
        render::widest_label(checkouts) >= render::columns(
            render::head_text(checkouts[i].report.head),
        ),
    decreases checkouts.len(),
{
    if i < checkouts.len() - 1 {
        lemma_widest(checkouts.drop_last(), i);
    }
}

/// A digest is shown as one list, or as one section for each group under its name
/// with its totals.
pub proof fn law_each_group_has_a_section(
    digest: model::DigestView,
    grouping: by_agent::GroupingView,
    i: int,
)
    ensures
        render::sections_of(digest, None).len() == 1,
        render::sections_of(digest, None)[0].heading is None,
        render::sections_of(digest, None)[0].repos == render::repos_sorted(digest.repos),
        render::sections_of(digest, Some(grouping)).len() == grouping.groups.len(),
        0 <= i < grouping.groups.len() ==> ({
            let section = render::sections_of(digest, Some(grouping))[i];
            let group = grouping.groups[i];
            &&& section.heading == Some(group.label)
            &&& section.stats == Some(render::block_text(group.commits, group.churn))
            &&& section.repos.to_multiset() == group.repos.to_multiset()
        }),
{
    if 0 <= i < grouping.groups.len() {
        order::law_arranged_keeps_items(
            grouping.groups[i].repos,
            |a: model::RepoView, b: model::RepoView| render::repo_first(a, b),
        );
    }
}

/// The quiet repositories of all sections are those of each of them, and the
/// repositories of all are counted.
pub proof fn law_sections_are_taken_together(
    sections: Seq<render::SectionView>,
    section: render::SectionView,
)
    ensures
        render::all_quiet(Seq::empty()) == Seq::<model::RepoView>::empty(),
        render::all_quiet(sections.push(section)) == render::all_quiet(sections)
            + section.repos.filter(|repo: model::RepoView| repo.activity() == Activity::Quiet),
        render::section_total(Seq::empty()) == 0,
        render::section_total(sections.push(section)) == render::section_total(
            sections,
        ).wrapping_add(section.repos.len() as usize),
{
    assert(sections.push(section).drop_last() =~= sections);
    assert(model::quiet_among(section.repos) =~= section.repos.filter(
        |repo: model::RepoView| repo.activity() == Activity::Quiet,
    ));
}

} // verus!
