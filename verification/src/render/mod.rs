//! The renderers.
//!
//! The output *is* the product. Every renderer takes exactly one digest and adds
//! nothing to it.
//!
//! - A checkout with nothing in the window is summarised as quiet, never
//!   omitted and never padded out with a row of zeros.
//! - Times are local and say so.
//! - Long branch names and paths must not wrap into soup at 80 columns.
//! - Anything in `problems` or `notes` is always shown.
//!
//! This module holds what the formats share: the width arithmetic, the
//! truncation rules, and the *sentences*, so that two formats can never drift
//! into saying different things about the same checkout.

pub mod entities;
pub mod html;
pub mod listed;
pub mod markdown;
pub mod sentences;
pub mod shown;
pub mod slack;
pub mod sorted;
pub mod text;
pub mod withheld;

use vstd::prelude::*;

use crate::by_agent::Grouping;
use crate::by_agent;
use crate::config::{Config, Format, Ignored};
use crate::model;
use crate::model::{
    Activity, AgentRef, CheckoutDigest, CheckoutReport, Churn, Commit, Comparison, Digest, Dirty, Equivalence,
    Head, Landed, Period, RepoDigest, Stamp, Text, Tracking, Unpushed, Window, WindowSource,
    OID_COLUMNS,
};
use crate::order;
use crate::paths;
use crate::strings;

verus! {

/// The width every terminal line is laid out for.
pub const WIDTH: usize = 80;

/// Widest branch column in the terminal report.
pub const BRANCH_COLUMNS: usize = 30;

/// Longest ref name the terminal report allows inside a sentence.
pub const REF_COLUMNS: usize = 28;

/// A ref name pasted into a channel is something a reader may need to type
/// back, so the other formats spend no column budget on it.
pub const REF_UNLIMITED: usize = usize::MAX;

// ---------------------------------------------------------------------------
// Widths
// ---------------------------------------------------------------------------

/// How many terminal columns a character takes: control characters and
/// combining marks take none, the common East Asian wide blocks take two.
pub open spec fn columns_of(c: char) -> nat {
    let code = c as u32;
    if strings::control(c) {
        0
    } else if (0x0300 <= code <= 0x036f) || (0x1ab0 <= code <= 0x1aff) || (0x20d0 <= code
        <= 0x20ff) || (0x200b <= code <= 0x200f) || (0xfe00 <= code <= 0xfe0f) || (0xfe20 <= code
        <= 0xfe2f) || code == 0xfeff {
        0
    } else if (0x1100 <= code <= 0x115f) || (0x2e80 <= code <= 0x303e) || (0x3041 <= code
        <= 0x33ff) || (0x3400 <= code <= 0x4dbf) || (0x4e00 <= code <= 0x9fff) || (0xa000 <= code
        <= 0xa4cf) || (0xac00 <= code <= 0xd7a3) || (0xf900 <= code <= 0xfaff) || (0xfe10 <= code
        <= 0xfe19) || (0xfe30 <= code <= 0xfe6f) || (0xff00 <= code <= 0xff60) || (0xffe0 <= code
        <= 0xffe6) || (0x1f300 <= code <= 0x1f64f) || (0x1f900 <= code <= 0x1f9ff) || (0x20000
        <= code <= 0x2fffd) || (0x30000 <= code <= 0x3fffd) {
        2
    } else {
        1
    }
}

/// The width of a text in terminal columns.
pub open spec fn columns(s: Text) -> nat
    decreases s.len(),
{
    if s.len() == 0 {
        0
    } else {
        columns(s.drop_last()) + columns_of(s.last())
    }
}

pub fn char_columns(c: char) -> (n: usize)
    ensures
        n == columns_of(c),
{
    let code: u32 = c as u32;
    if strings::is_control(c) {
        0
    } else if (0x0300 <= code && code <= 0x036f) || (0x1ab0 <= code && code <= 0x1aff) || (0x20d0
        <= code && code <= 0x20ff) || (0x200b <= code && code <= 0x200f) || (0xfe00 <= code && code
        <= 0xfe0f) || (0xfe20 <= code && code <= 0xfe2f) || code == 0xfeff {
        0
    } else if (0x1100 <= code && code <= 0x115f) || (0x2e80 <= code && code <= 0x303e) || (0x3041
        <= code && code <= 0x33ff) || (0x3400 <= code && code <= 0x4dbf) || (0x4e00 <= code && code
        <= 0x9fff) || (0xa000 <= code && code <= 0xa4cf) || (0xac00 <= code && code <= 0xd7a3) || (
    0xf900 <= code && code <= 0xfaff) || (0xfe10 <= code && code <= 0xfe19) || (0xfe30 <= code
        && code <= 0xfe6f) || (0xff00 <= code && code <= 0xff60) || (0xffe0 <= code && code
        <= 0xffe6) || (0x1f300 <= code && code <= 0x1f64f) || (0x1f900 <= code && code <= 0x1f9ff)
        || (0x20000 <= code && code <= 0x2fffd) || (0x30000 <= code && code <= 0x3fffd) {
        2
    } else {
        1
    }
}

pub proof fn lemma_columns_add(a: Text, b: Text)
    ensures
        columns(a + b) == columns(a) + columns(b),
    decreases b.len(),
{
    if b.len() == 0 {
        assert(a + b =~= a);
    } else {
        assert((a + b).drop_last() =~= a + b.drop_last());
        lemma_columns_add(a, b.drop_last());
    }
}

/// A part of a text is no wider than the whole.
pub proof fn lemma_columns_part(s: Text, from: int, to: int)
    requires
        0 <= from <= to <= s.len(),
    ensures
        columns(s.subrange(from, to)) <= columns(s),
{
    let middle = s.subrange(from, to);
    lemma_columns_add(s.take(from), middle);
    lemma_columns_add(s.take(from) + middle, s.skip(to));
    assert(s =~= s.take(from) + middle + s.skip(to));
}

/// A number, or the largest that a machine word holds.
pub open spec fn capped(n: nat) -> nat {
    if n <= usize::MAX {
        n
    } else {
        usize::MAX as nat
    }
}

/// Widths add up: two texts side by side are as wide as the one and the other
/// together, up to what a machine word holds, and no text has no width.
pub proof fn law_widths_add_up(a: Text, b: Text)
    ensures
        columns(a + b) == columns(a) + columns(b),
        capped(columns(a + b)) == capped(capped(columns(a)) + capped(columns(b))),
        columns(Seq::empty()) == 0,
{
    lemma_columns_add(a, b);
}

/// A character adds what it takes: nothing where it is a control character or
/// a combining mark, two columns in the wide East Asian blocks, and one where it
/// is printable ASCII.
pub proof fn law_a_character_adds_its_columns(s: Text, c: char)
    ensures
        columns(s.push(c)) == columns(s) + columns_of(c),
        strings::control(c) ==> columns_of(c) == 0,
        0x0300 <= c as u32 <= 0x036f ==> columns_of(c) == 0,
        0x4e00 <= c as u32 <= 0x9fff ==> columns_of(c) == 2,
        0xac00 <= c as u32 <= 0xd7a3 ==> columns_of(c) == 2,
        0x3041 <= c as u32 <= 0x33ff ==> columns_of(c) == 2,
        0x20 <= c as u32 <= 0x7e ==> columns_of(c) == 1,
{
    assert(s.push(c).drop_last() =~= s);
}

/// Width of `s` in terminal display columns, at most what a machine word holds.
pub fn display_width(s: &str) -> (n: usize)
    ensures
        n == capped(columns(s@)),
{
    let mut n: usize = 0;
    for ch in it: s.chars()
        invariant
            it.seq() == s@,
            n == capped(columns(s@.take(it.index() as int))),
    {
        assert(s@.take(it.index() + 1).drop_last() =~= s@.take(it.index() as int));
        n = n.saturating_add(char_columns(ch));
    }
    assert(s@.take(s@.len() as int) =~= s@);
    n
}

/// Whether a text fits into so many columns.
pub fn fits(s: &str, max: usize) -> (answer: bool)
    ensures
        answer == (columns(s@) <= max),
{
    let chars = strings::chars_of(s);
    let mut left: usize = max;
    for i in 0..chars.len()
        invariant
            chars@ == s@,
            left <= max,
            columns(s@.take(i as int)) == max - left,
    {
        assert(s@.take(i + 1).drop_last() =~= s@.take(i as int));
        let n = char_columns(chars[i]);
        if n > left {
            proof {
                lemma_columns_part(s@, 0, i + 1);
                assert(s@.subrange(0, i + 1) =~= s@.take(i + 1));
            }
            return false;
        }
        left = left - n;
    }
    assert(s@.take(s@.len() as int) =~= s@);
    true
}

pub open spec fn column_cost() -> spec_fn(char) -> nat {
    |c: char| columns_of(c)
}

/// A text cut to `max` columns from the right, the cut marked with `…`.
pub open spec fn cut_right(s: Text, max: nat) -> Text {
    if columns(s) <= max {
        s
    } else if max == 0 {
        Seq::empty()
    } else if max == 1 {
        seq!['\u{2026}']
    } else {
        strings::front(s, (max - 1) as nat, column_cost()).push('\u{2026}')
    }
}

/// A text cut to `max` columns by dropping characters from the middle. The tail
/// gets two thirds of the room.
pub open spec fn cut_middle(s: Text, max: nat) -> Text {
    if columns(s) <= max {
        s
    } else if max == 0 {
        Seq::empty()
    } else if max <= 2 {
        seq!['\u{2026}']
    } else {
        let budget = (max - 1) as nat;
        let tail = budget * 2 / 3;
        strings::front(s, (budget - tail) as nat, column_cost()).push('\u{2026}')
            + strings::back(s, tail, column_cost())
    }
}

/// Trims `s` to `max` display columns from the right, marking the cut with
/// `…`. For branch names, labels and subjects, whose head identifies them.
pub fn truncate_right(s: &str, max: usize) -> (out: String)
    ensures
        out@ == cut_right(s@, max as nat),
{
    if fits(s, max) {
        return s.to_string();
    }
    let mut out = String::new();
    if max == 0 {
        return out;
    }
    if max > 1 {
        out = strings::take_front(s, max - 1, char_columns, Ghost(column_cost()));
    }
    let ghost before = out@;
    out.push('\u{2026}');
    proof {
        if max == 1 {
            assert(out@ =~= seq!['\u{2026}']);
        }
    }
    out
}

/// Trims `s` to `max` display columns, dropping characters from the middle. For
/// paths, where both ends carry meaning.
pub fn truncate_middle(s: &str, max: usize) -> (out: String)
    ensures
        out@ == cut_middle(s@, max as nat),
{
    if fits(s, max) {
        return s.to_string();
    }
    let mut out = String::new();
    if max == 0 {
        return out;
    }
    if max <= 2 {
        out.push('\u{2026}');
        assert(out@ =~= seq!['\u{2026}']);
        return out;
    }
    let budget: usize = max - 1;
    let tail: usize = (budget as u128 * 2 / 3) as usize;
    let mut out = strings::take_front(s, budget - tail, char_columns, Ghost(column_cost()));
    out.push('\u{2026}');
    let end = strings::take_back(s, tail, char_columns, Ghost(column_cost()));
    out.append(end.as_str());
    out
}

proof fn lemma_front_fits(s: Text, budget: nat)
    ensures
        columns(strings::front(s, budget, column_cost())) <= budget,
    decreases s.len(),
{
    let cost = column_cost();
    if s.len() > 0 && cost(s[0]) <= budget {
        let left = (budget - cost(s[0])) as nat;
        lemma_front_fits(s.drop_first(), left);
        lemma_columns_add(seq![s[0]], strings::front(s.drop_first(), left, cost));
        lemma_columns_push(Seq::empty(), s[0]);
        assert(Seq::<char>::empty().push(s[0]) =~= seq![s[0]]);
    }
}

proof fn lemma_back_fits(s: Text, budget: nat)
    ensures
        columns(strings::back(s, budget, column_cost())) <= budget,
    decreases s.len(),
{
    let cost = column_cost();
    if s.len() > 0 && cost(s.last()) <= budget {
        let left = (budget - cost(s.last())) as nat;
        lemma_back_fits(s.drop_last(), left);
        let kept = strings::back(s.drop_last(), left, cost);
        assert(kept.push(s.last()).drop_last() =~= kept);
    }
}

proof fn lemma_columns_push(s: Text, c: char)
    ensures
        columns(s.push(c)) == columns(s) + columns_of(c),
{
    assert(s.push(c).drop_last() =~= s);
}

/// What is cut to a width has at most that width.
pub proof fn law_truncation_keeps_the_width(s: Text, max: nat)
    ensures
        columns(cut_right(s, max)) <= max,
        columns(cut_middle(s, max)) <= max,
{
    let cost = column_cost();
    lemma_columns_push(Seq::empty(), '\u{2026}');
    assert(Seq::<char>::empty().push('\u{2026}') =~= seq!['\u{2026}']);
    if max > 1 {
        lemma_front_fits(s, (max - 1) as nat);
        lemma_columns_push(strings::front(s, (max - 1) as nat, cost), '\u{2026}');
    }
    if max > 2 {
        let budget = (max - 1) as nat;
        let tail = budget * 2 / 3;
        let head = strings::front(s, (budget - tail) as nat, cost);
        lemma_front_fits(s, (budget - tail) as nat);
        lemma_back_fits(s, tail);
        lemma_columns_push(head, '\u{2026}');
        lemma_columns_add(head.push('\u{2026}'), strings::back(s, tail, cost));
    }
}

/// A text that fits is not touched.
pub proof fn law_truncation_leaves_what_fits(s: Text, max: nat)
    requires
        columns(s) <= max,
    ensures
        cut_right(s, max) == s,
        cut_middle(s, max) == s,
{
}

// ---------------------------------------------------------------------------
// Paths
// ---------------------------------------------------------------------------

/// A path as seen from the home directory.
pub open spec fn from_home(path: Text, home: Option<Text>) -> Text {
    match crate::config::given(home) {
        None => path,
        Some(home) => {
            let base = strings::without_trailing(home, '/');
            if base.len() == 0 {
                path
            } else if path == base {
                "~"@
            } else {
                match strings::stripped(path, base + "/"@) {
                    Some(rest) => "~/"@ + rest,
                    None => path,
                }
            }
        },
    }
}

/// `~/repos/app` rather than `/home/somebody/repos/app`.
pub fn home_relative(path: &str, home: &Option<String>) -> (out: String)
    ensures
        out@ == from_home(path@, strings::view_of(*home)),
{
    let home = match crate::config::non_empty_env(home) {
        Some(home) => home,
        None => {
            return path.to_string();
        },
    };
    let base = strings::trim_end_of(home.as_str(), '/');
    if strings::is_empty(base.as_str()) {
        return path.to_string();
    }
    if strings::same(path, base.as_str()) {
        return "~".to_string();
    }
    match strings::strip_prefix(path, strings::cat2(base.as_str(), "/").as_str()) {
        Some(rest) => strings::cat2("~/", rest.as_str()),
        None => path.to_string(),
    }
}

/// The last components that fit into a budget, with a column for the separator
/// before each but the last.
pub open spec fn last_parts(parts: Seq<Text>, budget: nat, separated: bool) -> Seq<Text>
    decreases parts.len(),
{
    if parts.len() == 0 {
        Seq::empty()
    } else {
        let cost = columns(parts.last()) + if separated {
            1nat
        } else {
            0nat
        };
        if cost > budget {
            Seq::empty()
        } else {
            last_parts(parts.drop_last(), (budget - cost) as nat, true).push(parts.last())
        }
    }
}

/// A path cut to `max` columns, on a separator where that is possible.
pub open spec fn short_path(shown: Text, max: nat) -> Text {
    let parts = strings::pieces(shown, '/');
    let prefix = parts[0] + "/\u{2026}/"@;
    if columns(shown) <= max {
        shown
    } else if parts.len() > 2 && columns(prefix) < max {
        let kept = last_parts(parts.skip(1), (max - columns(prefix)) as nat, false);
        if kept.len() > 0 {
            prefix + strings::joined(kept, "/"@)
        } else {
            cut_middle(shown, max)
        }
    } else {
        cut_middle(shown, max)
    }
}

fn keep_last(parts: &Vec<String>, budget: usize) -> (out: Vec<String>)
    requires
        parts@.len() > 0,
    ensures
        strings::views(out@) == last_parts(
            strings::views(parts@).skip(1),
            budget as nat,
            false,
        ),
{
    broadcast use strings::group_lists;

    let ghost all = strings::views(parts@).skip(1);
    let mut left: usize = budget;
    let mut from: usize = parts.len();
    let mut separated = false;
    assert(all.take(all.len() as int) =~= all);
    assert(last_parts(all, budget as nat, false) + strings::views(parts@).skip(from as int)
        =~= last_parts(all, budget as nat, false));
    while from > 1
        invariant_except_break
            1 <= from <= parts@.len(),
            all == strings::views(parts@).skip(1),
            last_parts(all, budget as nat, false) == last_parts(
                all.take(from - 1),
                left as nat,
                separated,
            ) + strings::views(parts@).skip(from as int),
        ensures
            1 <= from <= parts@.len(),
            last_parts(all, budget as nat, false) == strings::views(parts@).skip(from as int),
        decreases from,
    {
        let part = &parts[from - 1];
        let ghost rest = all.take(from - 1);
        assert(rest.last() == part@);
        assert(rest.drop_last() =~= all.take(from - 2));
        let room: usize = if separated && left > 0 {
            left - 1
        } else {
            left
        };
        if (separated && left == 0) || !fits(part.as_str(), room) {
            assert(last_parts(rest, left as nat, separated) == Seq::<Text>::empty());
            assert(Seq::<Text>::empty() + strings::views(parts@).skip(from as int)
                =~= strings::views(parts@).skip(from as int));
            break;
        }
        left = room - display_width(part.as_str());
        from = from - 1;
        separated = true;
        proof {
            let tail = strings::views(parts@);
            assert(last_parts(all.take(from - 1), left as nat, true).push(part@) + tail.skip(
                from + 1,
            ) =~= last_parts(all.take(from - 1), left as nat, true) + tail.skip(from as int));
            if from == 1 {
                assert(last_parts(all.take(0), left as nat, true) == Seq::<Text>::empty());
                assert(Seq::<Text>::empty() + tail.skip(1) =~= tail.skip(1));
            }
        }
    }
    let mut out: Vec<String> = Vec::new();
    let ghost tail = strings::views(parts@).skip(from as int);
    for i in from..parts.len()
        invariant
            1 <= from <= i,
            tail == strings::views(parts@).skip(from as int),
            strings::views(out@) == tail.take(i - from),
    {
        broadcast use strings::group_lists;

        assert(tail[i - from] == parts@[i as int]@);
        out.push(parts[i].clone());
    }
    assert(tail.take(tail.len() as int) =~= tail);
    out
}

/// A path at most `max` columns wide, home-relative, cut in the middle. The cut
/// lands on a path separator when it can.
pub fn shorten_path(path: &str, max: usize, home: &Option<String>) -> (out: String)
    ensures
        out@ == short_path(from_home(path@, strings::view_of(*home)), max as nat),
{
    let shown = home_relative(path, home);
    if fits(shown.as_str(), max) {
        return shown;
    }
    let parts = strings::split(shown.as_str(), '/');
    assert(strings::views(parts@)[0] == parts@[0]@);
    if parts.len() > 2 && max > 0 {
        let prefix = strings::cat2(parts[0].as_str(), "/\u{2026}/");
        if fits(prefix.as_str(), max - 1) {
            let kept = keep_last(&parts, max - display_width(prefix.as_str()));
            assert(strings::views(kept@).len() == kept@.len());
            if kept.len() > 0 {
                return strings::cat2(prefix.as_str(), strings::join(&kept, "/").as_str());
            }
        }
    }
    truncate_middle(shown.as_str(), max)
}

/// A ref name inside a sentence, cut at the end.
pub open spec fn ref_text(name: Text, max: nat) -> Text {
    cut_right(strings::trimmed(name), max)
}

pub fn ref_name(name: &str, max: usize) -> (out: String)
    ensures
        out@ == ref_text(name@, max as nat),
{
    truncate_right(strings::trim(name).as_str(), max)
}

// ---------------------------------------------------------------------------
// Sentences
// ---------------------------------------------------------------------------

/// A count and its noun.
pub open spec fn counted(n: nat, one: Text, many: Text) -> Text {
    if n == 1 {
        "1 "@ + one
    } else {
        strings::decimal(n) + " "@ + many
    }
}

fn count_phrase(n: u64, one: &str, many: &str) -> (out: String)
    ensures
        out@ == counted(n as nat, one@, many@),
{
    if n == 1 {
        strings::cat2("1 ", one)
    } else {
        strings::cat3(strings::number(n).as_str(), " ", many)
    }
}

/// "1 commit", "2 commits": never `1 commits` in a pasted standup.
pub fn quantity(n: usize, one: &str, many: &str) -> (out: String)
    ensures
        out@ == counted(n as nat, one@, many@),
{
    count_phrase(n as u64, one, many)
}

pub open spec fn commits_text(n: nat) -> Text {
    if n == 0 {
        "no commits"@
    } else {
        counted(n, "commit"@, "commits"@)
    }
}

/// `7 commits`, `1 commit`, `no commits`.
pub fn commit_count(commits: usize) -> (out: String)
    ensures
        out@ == commits_text(commits as nat),
{
    if commits == 0 {
        "no commits".to_string()
    } else {
        quantity(commits, "commit", "commits")
    }
}

pub open spec fn delta_text(insertions: nat, deletions: nat) -> Text {
    "+"@ + strings::decimal(insertions) + " \u{2212}"@ + strings::decimal(deletions)
}

/// `+812 −140`, with a real minus sign so it lines up under the plus.
pub fn delta(insertions: u64, deletions: u64) -> (out: String)
    ensures
        out@ == delta_text(insertions as nat, deletions as nat),
{
    strings::cat4(
        "+",
        strings::number(insertions).as_str(),
        " \u{2212}",
        strings::number(deletions).as_str(),
    )
}

pub open spec fn files_text(churn: Churn) -> Text {
    let files = counted(churn.files as nat, "file"@, "files"@);
    if churn.excluded == 0 {
        files
    } else {
        files + " ("@ + strings::decimal(churn.excluded as nat) + " generated)"@
    }
}

/// `23 files`, or `23 files (1 generated)` when some of them contributed no
/// lines.
pub fn files_count(churn: Churn) -> (out: String)
    ensures
        out@ == files_text(churn),
{
    let files = quantity(churn.files, "file", "files");
    if churn.excluded == 0 {
        files
    } else {
        strings::cat4(
            files.as_str(),
            " (",
            strings::number(churn.excluded as u64).as_str(),
            " generated)",
        )
    }
}

pub open spec fn block_text(commits: usize, churn: Churn) -> Text {
    if churn.zero() {
        commits_text(commits as nat)
    } else {
        commits_text(commits as nat) + "  \u{b7}  "@ + files_text(churn) + "  "@ + delta_text(
            churn.insertions as nat,
            churn.deletions as nat,
        )
    }
}

/// The stat block that sits at the right-hand end of a repository line:
/// `7 commits  ·  23 files  +812 −140`.
pub fn repo_stats(commits: usize, churn: Churn) -> (out: String)
    ensures
        out@ == block_text(commits, churn),
{
    let count = commit_count(commits);
    if churn.is_zero() {
        count
    } else {
        strings::cat5(
            count.as_str(),
            "  \u{b7}  ",
            files_count(churn).as_str(),
            "  ",
            delta(churn.insertions, churn.deletions).as_str(),
        )
    }
}

pub open spec fn stats_text(commits: usize, churn: Churn) -> Text {
    if churn.zero() {
        commits_text(commits as nat)
    } else {
        commits_text(commits as nat) + ", "@ + files_text(churn) + ", "@ + delta_text(
            churn.insertions as nat,
            churn.deletions as nat,
        )
    }
}

/// `7 commits, 23 files, +812 −140`. Commas rather than the terminal report's
/// middle dots: this is a sentence in a channel, not a column in a pane.
pub fn stats(commits: usize, churn: Churn) -> (out: String)
    ensures
        out@ == stats_text(commits, churn),
{
    let count = commit_count(commits);
    if churn.is_zero() {
        count
    } else {
        strings::cat5(
            count.as_str(),
            ", ",
            files_count(churn).as_str(),
            ", ",
            delta(churn.insertions, churn.deletions).as_str(),
        )
    }
}

pub open spec fn head_text(head: Head<Text>) -> Text {
    match head {
        Head::Detached { oid } => "(detached at "@ + strings::leading(oid, OID_COLUMNS as nat)
            + ")"@,
        Head::Branch { name, .. } | Head::Unborn { name } | Head::BranchDeleted { name } => {
            let trimmed = strings::trimmed(name);
            if trimmed.len() > 0 {
                trimmed
            } else {
                "(unnamed branch)"@
            }
        },
    }
}

/// Fixed-width abbreviation, matching `Commit::short_oid`.
pub fn abbrev_oid(oid: &str) -> (out: String)
    ensures
        out@ == strings::leading(oid@, OID_COLUMNS as nat),
{
    strings::leading_bytes(oid, OID_COLUMNS)
}

/// What goes in the branch column.
pub fn head_label(head: &Head) -> (out: String)
    ensures
        out@ == head_text(head@),
{
    match head {
        Head::Detached { oid } => strings::cat3(
            "(detached at ",
            abbrev_oid(oid.as_str()).as_str(),
            ")",
        ),
        Head::Branch { name, .. } | Head::Unborn { name } | Head::BranchDeleted { name } => {
            let trimmed = strings::trim(name.as_str());
            if strings::is_empty(trimmed.as_str()) {
                "(unnamed branch)".to_string()
            } else {
                trimmed
            }
        },
    }
}

/// The half of a HEAD that a branch name cannot carry, and whether it is a
/// problem the reader has to act on.
pub open spec fn head_remark(head: Head<Text>, ref_max: nat) -> Option<(Text, bool)> {
    match head {
        Head::Branch { .. } | Head::Detached { .. } => None,
        Head::Unborn { .. } => Some(("unborn branch \u{2014} no commits here yet"@, false)),
        Head::BranchDeleted { name } => Some(
            ("the branch "@ + ref_text(name, ref_max) + " was deleted underneath this checkout"@, true),
        ),
    }
}

pub fn head_note(head: &Head, ref_max: usize) -> (out: Option<(String, bool)>)
    ensures
        strings::view_of(out) == head_remark(head@, ref_max as nat),
{
    match head {
        Head::Branch { .. } | Head::Detached { .. } => None,
        Head::Unborn { .. } => Some(
            ("unborn branch \u{2014} no commits here yet".to_string(), false),
        ),
        Head::BranchDeleted { name } => Some(
            (
                strings::cat3(
                    "the branch ",
                    ref_name(name.as_str(), ref_max).as_str(),
                    " was deleted underneath this checkout",
                ),
                true,
            ),
        ),
    }
}

pub open spec fn landed_text(landed: Landed<Text>, ref_max: nat) -> Text {
    match landed {
        Landed::IsDefault { name } => "on the default branch "@ + ref_text(name, ref_max),
        Landed::Merged { into } => "merged into "@ + ref_text(into, ref_max),
        Landed::Equivalent { into, how: Equivalence::EveryCommit { .. } } => "every commit is on "@
            + ref_text(into, ref_max) + " by patch, not by sha"@,
        Landed::Equivalent { into, how: Equivalence::Squashed { oid } } => "on "@ + ref_text(
            into,
            ref_max,
        ) + " by patch as "@ + strings::leading(oid, OID_COLUMNS as nat) + ", not by sha"@,
        Landed::NotMerged { into } => "not merged into "@ + ref_text(into, ref_max),
        Landed::Unknown { reason } => "merge status unknown: "@ + reason,
    }
}

/// Whether the work has landed on the default branch: one sentence for each
/// state, and never a bare "no" where there was nothing to compare against.
pub fn landed_sentence(landed: &Landed, ref_max: usize) -> (out: String)
    ensures
        out@ == landed_text(landed@, ref_max as nat),
{
    match landed {
        Landed::IsDefault { name } => strings::cat2(
            "on the default branch ",
            ref_name(name.as_str(), ref_max).as_str(),
        ),
        Landed::Merged { into } => strings::cat2(
            "merged into ",
            ref_name(into.as_str(), ref_max).as_str(),
        ),
        Landed::Equivalent { into, how: Equivalence::EveryCommit { .. } } => strings::cat3(
            "every commit is on ",
            ref_name(into.as_str(), ref_max).as_str(),
            " by patch, not by sha",
        ),
        Landed::Equivalent { into, how: Equivalence::Squashed { oid } } => strings::cat5(
            "on ",
            ref_name(into.as_str(), ref_max).as_str(),
            " by patch as ",
            abbrev_oid(oid.as_str()).as_str(),
            ", not by sha",
        ),
        Landed::NotMerged { into } => strings::cat2(
            "not merged into ",
            ref_name(into.as_str(), ref_max).as_str(),
        ),
        Landed::Unknown { reason } => strings::cat2("merge status unknown: ", reason.as_str()),
    }
}

pub open spec fn tracking_text(tracking: Tracking<Text>, ref_max: nat) -> Text {
    match tracking {
        Tracking::NotApplicable => "no branch to track"@,
        Tracking::NoUpstream => "no upstream"@,
        Tracking::UpstreamMissing { name } => "upstream "@ + ref_text(name, ref_max)
            + " no longer exists"@,
        Tracking::Upstream { name, ahead, behind } => if ahead == 0 && behind == 0 {
            "in sync with "@ + ref_text(name, ref_max)
        } else if behind == 0 {
            strings::decimal(ahead as nat) + " ahead of "@ + ref_text(name, ref_max)
        } else if ahead == 0 {
            strings::decimal(behind as nat) + " behind "@ + ref_text(name, ref_max)
        } else {
            strings::decimal(ahead as nat) + " ahead, "@ + strings::decimal(behind as nat)
                + " behind "@ + ref_text(name, ref_max)
        },
    }
}

/// Upstream state. "Nobody is watching this branch" and "the remote branch was
/// deleted" are different facts and get different words.
pub fn tracking_sentence(tracking: &Tracking, ref_max: usize) -> (out: String)
    ensures
        out@ == tracking_text(tracking@, ref_max as nat),
{
    match tracking {
        Tracking::NotApplicable => "no branch to track".to_string(),
        Tracking::NoUpstream => "no upstream".to_string(),
        Tracking::UpstreamMissing { name } => strings::cat3(
            "upstream ",
            ref_name(name.as_str(), ref_max).as_str(),
            " no longer exists",
        ),
        Tracking::Upstream { name, ahead, behind } => {
            let shown = ref_name(name.as_str(), ref_max);
            if *ahead == 0 && *behind == 0 {
                strings::cat2("in sync with ", shown.as_str())
            } else if *behind == 0 {
                strings::cat3(strings::number(*ahead).as_str(), " ahead of ", shown.as_str())
            } else if *ahead == 0 {
                strings::cat3(strings::number(*behind).as_str(), " behind ", shown.as_str())
            } else {
                strings::cat5(
                    strings::number(*ahead).as_str(),
                    " ahead, ",
                    strings::number(*behind).as_str(),
                    " behind ",
                    shown.as_str(),
                )
            }
        },
    }
}

/// The counts of uncommitted work that are not nothing, in order.
pub open spec fn dirty_parts(dirty: Dirty) -> Seq<Text> {
    let changed = if dirty.tracked_changed > 0 {
        seq![counted(dirty.tracked_changed as nat, "file"@, "files"@) + " changed"@]
    } else {
        Seq::empty()
    };
    let untracked = if dirty.untracked > 0 {
        seq![strings::decimal(dirty.untracked as nat) + " untracked"@]
    } else {
        Seq::empty()
    };
    let conflicted = if dirty.conflicted > 0 {
        seq![counted(dirty.conflicted as nat, "file"@, "files"@) + " conflicted"@]
    } else {
        Seq::empty()
    };
    let lines = if dirty.insertions > 0 || dirty.deletions > 0 {
        seq![delta_text(dirty.insertions as nat, dirty.deletions as nat)]
    } else {
        Seq::empty()
    };
    changed + untracked + conflicted + lines
}

pub open spec fn dirty_text(dirty: Dirty) -> Option<Text> {
    if dirty.clean() {
        None
    } else {
        Some("uncommitted: "@ + strings::joined(dirty_parts(dirty), ", "@))
    }
}

/// Work sitting in the checkout right now, uncommitted. `None` when the
/// checkout is clean.
pub fn dirty_sentence(dirty: &Dirty) -> (out: Option<String>)
    ensures
        strings::view_of(out) == dirty_text(*dirty),
{
    broadcast use strings::group_lists;

    if dirty.is_clean() {
        return None;
    }
    let mut parts: Vec<String> = Vec::new();
    if dirty.tracked_changed > 0 {
        parts.push(
            strings::cat2(quantity(dirty.tracked_changed, "file", "files").as_str(), " changed"),
        );
    }
    if dirty.untracked > 0 {
        parts.push(
            strings::cat2(strings::number(dirty.untracked as u64).as_str(), " untracked"),
        );
    }
    if dirty.conflicted > 0 {
        parts.push(
            strings::cat2(quantity(dirty.conflicted, "file", "files").as_str(), " conflicted"),
        );
    }
    if dirty.insertions > 0 || dirty.deletions > 0 {
        parts.push(delta(dirty.insertions, dirty.deletions));
    }
    assert(strings::views(parts@) =~= dirty_parts(*dirty));
    Some(strings::cat2("uncommitted: ", strings::join(&parts, ", ").as_str()))
}

pub open spec fn unpushed_text(unpushed: Unpushed<Text>) -> Option<Text> {
    if unpushed.at_risk() > 0 {
        Some(
            "unpushed: "@ + counted(unpushed.at_risk() as nat, "commit"@, "commits"@)
                + " on no remote"@,
        )
    } else {
        None
    }
}

/// Work that exists in this checkout and nowhere else. `None` when there is
/// none of it, and when there is no remote for it to have been pushed to.
pub fn unpushed_sentence(unpushed: &Unpushed) -> (out: Option<String>)
    ensures
        strings::view_of(out) == unpushed_text(unpushed@),
{
    let count = unpushed.at_risk();
    if count > 0 {
        Some(
            strings::cat3(
                "unpushed: ",
                count_phrase(count, "commit", "commits").as_str(),
                " on no remote",
            ),
        )
    } else {
        None
    }
}

/// How many of the commits are merges.
pub open spec fn merges(commits: Seq<model::CommitView>) -> nat
    decreases commits.len(),
{
    if commits.len() == 0 {
        0
    } else {
        merges(commits.drop_last()) + if commits.last().is_merge {
            1nat
        } else {
            0nat
        }
    }
}

/// What came out of the window in one checkout.
pub open spec fn output_text(report: model::ReportView) -> Text {
    if report.commits.len() == 0 {
        "no commits in this window"@
    } else {
        let count = counted(report.commits.len(), "commit"@, "commits"@);
        let merged = if merges(report.commits) > 0 {
            count + " ("@ + counted(merges(report.commits), "merge"@, "merges"@) + ")"@
        } else {
            count
        };
        if report.churn.zero() {
            merged
        } else {
            merged + ", "@ + files_text(report.churn) + ", "@ + delta_text(
                report.churn.insertions as nat,
                report.churn.deletions as nat,
            )
        }
    }
}

/// The three clauses describing one checkout's window: what came out of it,
/// whether it landed, and who is watching it.
pub open spec fn clauses(report: model::ReportView, ref_max: nat) -> Seq<Text> {
    seq![
        output_text(report),
        landed_text(report.landed, ref_max),
        tracking_text(report.tracking, ref_max),
    ]
}

fn count_merges(commits: &Vec<Commit>) -> (n: usize)
    ensures
        n == merges(strings::views(commits@)),
{
    broadcast use strings::group_lists;

    let ghost all = strings::views(commits@);
    let mut n: usize = 0;
    for i in 0..commits.len()
        invariant
            all == strings::views(commits@),
            n <= i,
            n == merges(all.take(i as int)),
    {
        broadcast use strings::group_lists;

        assert(all.take(i as int).push(all[i as int]) == all.take(i + 1));
        assert(all[i as int] == commits@[i as int]@);
        if commits[i].is_merge {
            n = n + 1;
        }
    }
    n
}

fn output(report: &CheckoutReport) -> (out: String)
    ensures
        out@ == output_text(report@),
{
    if report.commits.len() == 0 {
        return "no commits in this window".to_string();
    }
    let merged = count_merges(&report.commits);
    let mut counted = quantity(report.commits.len(), "commit", "commits");
    if merged > 0 {
        counted =
        strings::cat4(
            counted.as_str(),
            " (",
            quantity(merged, "merge", "merges").as_str(),
            ")",
        );
    }
    if report.churn.is_zero() {
        counted
    } else {
        strings::cat5(
            counted.as_str(),
            ", ",
            files_count(report.churn).as_str(),
            ", ",
            delta(report.churn.insertions, report.churn.deletions).as_str(),
        )
    }
}

pub fn checkout_clauses(report: &CheckoutReport, ref_max: usize) -> (out: Vec<String>)
    ensures
        strings::views(out@) == clauses(report@, ref_max as nat),
{
    let mut parts: Vec<String> = Vec::new();
    parts.push(output(report));
    parts.push(landed_sentence(&report.landed, ref_max));
    parts.push(tracking_sentence(&report.tracking, ref_max));
    assert(strings::views(parts@) =~= clauses(report@, ref_max as nat));
    parts
}

pub open spec fn agent_text(agent: AgentRef<Text>) -> Option<Text> {
    match agent.display() {
        None => None,
        Some(display) => match agent.program {
            None => Some(display),
            Some(program) => {
                let trimmed = strings::trimmed(program);
                if trimmed.len() > 0 && trimmed != display {
                    Some(display + " ("@ + trimmed + ")"@)
                } else {
                    Some(display)
                }
            },
        },
    }
}

/// `shear-classifier (opencode)`, or whichever half of that was reported.
pub fn agent_label(agent: &AgentRef) -> (out: Option<String>)
    ensures
        strings::view_of(out) == agent_text(agent@),
{
    let display = match agent.display() {
        Some(display) => display,
        None => {
            return None;
        },
    };
    match &agent.program {
        None => Some(display.to_string()),
        Some(program) => {
            let trimmed = strings::trim(program.as_str());
            if !strings::is_empty(trimmed.as_str()) && !strings::same(trimmed.as_str(), display) {
                Some(strings::cat4(display, " (", trimmed.as_str(), ")"))
            } else {
                Some(display.to_string())
            }
        },
    }
}

/// Where a label stands in a list, or the length of the list.
pub open spec fn label_at(list: Seq<(Text, usize)>, label: Text) -> int
    decreases list.len(),
{
    if list.len() == 0 || list[0].0 == label {
        0
    } else {
        1 + label_at(list.drop_first(), label)
    }
}

/// A list of labels with one more counted.
pub open spec fn one_more(list: Seq<(Text, usize)>, label: Text) -> Seq<(Text, usize)> {
    let at = label_at(list, label);
    if at < list.len() {
        list.update(at, (label, (list[at].1 + 1) as usize))
    } else {
        list.push((label, 1))
    }
}

/// The labels of the agents that have one, each with how often it occurs, in
/// the order in which they first occur.
pub open spec fn labelled(agents: Seq<AgentRef<Text>>) -> Seq<(Text, usize)>
    decreases agents.len(),
{
    if agents.len() == 0 {
        Seq::empty()
    } else {
        let before = labelled(agents.drop_last());
        match agent_text(agents.last()) {
            Some(label) => one_more(before, label),
            None => before,
        }
    }
}

pub open spec fn credit(label: (Text, usize)) -> Text {
    if label.1 == 1 {
        label.0
    } else {
        label.0 + " \u{d7}"@ + strings::decimal(label.1 as nat)
    }
}

pub open spec fn credits(labels: Seq<(Text, usize)>) -> Seq<Text> {
    Seq::new(labels.len(), |i: int| credit(labels[i]))
}

/// Who to credit: the agents placed here, or failing that the commit authors.
/// Agents that share a label are counted rather than repeated.
pub open spec fn credited(checkout: model::CheckoutView) -> Option<(Text, Text)> {
    let labels = labelled(checkout.agents);
    let authors = model::authors_of(checkout.report.commits);
    if labels.len() > 0 {
        Some(("agents"@, strings::joined(credits(labels), ", "@)))
    } else if authors.len() > 0 {
        Some(("authors"@, strings::joined(authors, ", "@)))
    } else {
        None
    }
}

pub proof fn lemma_label_at(list: Seq<(Text, usize)>, label: Text)
    ensures
        0 <= label_at(list, label) <= list.len(),
        label_at(list, label) < list.len() ==> list[label_at(list, label)].0 == label,
    decreases list.len(),
{
    if list.len() > 0 && list[0].0 != label {
        lemma_label_at(list.drop_first(), label);
    }
}

#[verifier::loop_isolation(false)]
fn find_label(list: &Vec<(String, usize)>, label: &str) -> (at: usize)
    ensures
        at == label_at(strings::views(list@), label@),
{
    let ghost all = strings::views(list@);
    assert(all.skip(0) =~= all);
    for i in 0..list.len()
        invariant
            label_at(all, label@) == i + label_at(all.skip(i as int), label@),
    {
        let ghost rest = all.skip(i as int);
        assert(rest[0] == list@[i as int]@);
        assert(rest.drop_first() =~= all.skip(i + 1));
        if strings::same(list[i].0.as_str(), label) {
            return i;
        }
    }
    list.len()
}

proof fn lemma_labelled_bound(agents: Seq<AgentRef<Text>>)
    ensures
        forall|k: int|
            0 <= k < labelled(agents).len() ==> (#[trigger] labelled(agents)[k]).1 <= agents.len(),
    decreases agents.len(),
{
    if agents.len() > 0 {
        lemma_labelled_bound(agents.drop_last());
        if let Some(label) = agent_text(agents.last()) {
            lemma_label_at(labelled(agents.drop_last()), label);
        }
    }
}

fn label_agents(agents: &Vec<AgentRef>) -> (out: Vec<(String, usize)>)
    ensures
        strings::views(out@) == labelled(strings::views(agents@)),
{
    broadcast use strings::group_lists;

    let ghost all = strings::views(agents@);
    let mut out: Vec<(String, usize)> = Vec::new();
    for i in 0..agents.len()
        invariant
            all == strings::views(agents@),
            strings::views(out@) == labelled(all.take(i as int)),
    {
        broadcast use strings::group_lists;

        assert(all.take(i as int).push(all[i as int]) == all.take(i + 1));
        assert(all[i as int] == agents@[i as int]@);
        let ghost before = strings::views(out@);
        if let Some(label) = agent_label(&agents[i]) {
            let at = find_label(&out, label.as_str());
            proof {
                lemma_label_at(before, label@);
                lemma_labelled_bound(all.take(i as int));
            }
            if at < out.len() {
                assert(before[at as int] == out@[at as int]@);
                let n: usize = out[at].1 + 1;
                out.set(at, (label, n));
                assert(strings::views(out@) =~= before.update(at as int, (label@, n)));
            } else {
                out.push((label, 1));
            }
        }
    }
    out
}

fn credit_labels(labels: &Vec<(String, usize)>) -> (out: Vec<String>)
    ensures
        strings::views(out@) == credits(strings::views(labels@)),
{
    broadcast use strings::group_lists;

    let ghost all = credits(strings::views(labels@));
    let mut out: Vec<String> = Vec::new();
    for i in 0..labels.len()
        invariant
            all == credits(strings::views(labels@)),
            strings::views(out@) == all.take(i as int),
    {
        broadcast use strings::group_lists;

        let (label, count) = &labels[i];
        assert(strings::views(labels@)[i as int] == (label@, *count));
        let shown = if *count == 1 {
            label.clone()
        } else {
            strings::cat3(label.as_str(), " \u{d7}", strings::number(*count as u64).as_str())
        };
        assert(all[i as int] == shown@);
        out.push(shown);
    }
    assert(all.take(all.len() as int) =~= all);
    out
}

pub fn attribution(checkout: &CheckoutDigest) -> (out: Option<(&'static str, String)>)
    ensures
        strings::view_of(out) == credited(checkout@),
{
    let labels = label_agents(&checkout.agents);
    assert(strings::views(labels@).len() == labels@.len());
    if labels.len() > 0 {
        let shown = credit_labels(&labels);
        return Some(("agents", strings::join(&shown, ", ")));
    }
    let authors = checkout.report.authors();
    assert(strings::views(authors@).len() == authors@.len());
    if authors.len() > 0 {
        return Some(("authors", strings::join(&authors, ", ")));
    }
    None
}

// ---------------------------------------------------------------------------
// Time
// ---------------------------------------------------------------------------

/// `2026-08-15` out of `2026-08-15 09:12`.
pub open spec fn date_text(stamp: Stamp<Text>) -> Text {
    strings::before_first(stamp.local, ' ')
}

/// `09:12` out of `2026-08-15 09:12`.
pub open spec fn time_text(stamp: Stamp<Text>) -> Text {
    strings::after_last(stamp.local, ' ')
}

pub fn date_of(stamp: &Stamp) -> (out: String)
    ensures
        out@ == date_text(stamp@),
{
    strings::head_before(stamp.local.as_str(), ' ')
}

pub fn time_of(stamp: &Stamp) -> (out: String)
    ensures
        out@ == time_text(stamp@),
{
    strings::tail_after(stamp.local.as_str(), ' ')
}

pub open spec fn generated_text(digest: model::DigestView) -> Text {
    let generated = digest.generated_at;
    let since = digest.window.since;
    if generated.zone == since.zone && date_text(generated) == date_text(since) {
        time_text(generated)
    } else {
        generated.full()
    }
}

/// How to print "generated at": the time alone once the header has already
/// established the day and the zone, and the full form otherwise.
pub fn generated_display(digest: &Digest) -> (out: String)
    ensures
        out@ == generated_text(digest@),
{
    let generated = &digest.generated_at;
    let since = &digest.window.since;
    if strings::same(generated.zone.as_str(), since.zone.as_str()) && strings::same(
        date_of(generated).as_str(),
        date_of(since).as_str(),
    ) {
        time_of(generated)
    } else {
        generated.full()
    }
}

pub open spec fn commit_on(commits: Seq<model::CommitView>, day: Text) -> bool {
    forall|i: int| 0 <= i < commits.len() ==> date_text((#[trigger] commits[i]).committed) == day
}

pub open spec fn checkouts_on(checkouts: Seq<model::CheckoutView>, day: Text) -> bool {
    forall|i: int|
        0 <= i < checkouts.len() ==> commit_on((#[trigger] checkouts[i]).report.commits, day)
}

pub open spec fn repos_on(repos: Seq<model::RepoView>, day: Text) -> bool {
    forall|i: int| 0 <= i < repos.len() ==> checkouts_on((#[trigger] repos[i]).checkouts, day)
}

/// Whether commit lines have to carry their date: as soon as the window spans
/// more than one day, or a commit in it is dated differently from its start.
pub open spec fn needs_dates(digest: model::DigestView) -> bool {
    let start = date_text(digest.window.since);
    let end = match digest.window.until {
        Some(until) => date_text(until),
        None => date_text(digest.generated_at),
    };
    start != end || !repos_on(digest.repos, start)
}

fn all_on(commits: &Vec<Commit>, day: &str) -> (answer: bool)
    ensures
        answer == commit_on(strings::views(commits@), day@),
{
    let ghost all = strings::views(commits@);
    for i in 0..commits.len()
        invariant
            all == strings::views(commits@),
            forall|j: int| 0 <= j < i ==> date_text((#[trigger] all[j]).committed) == day@,
    {
        assert(all[i as int] == commits@[i as int]@);
        if !strings::same(date_of(&commits[i].committed).as_str(), day) {
            return false;
        }
    }
    true
}

fn all_checkouts_on(checkouts: &Vec<CheckoutDigest>, day: &str) -> (answer: bool)
    ensures
        answer == checkouts_on(strings::views(checkouts@), day@),
{
    let ghost all = strings::views(checkouts@);
    for i in 0..checkouts.len()
        invariant
            all == strings::views(checkouts@),
            forall|j: int| 0 <= j < i ==> commit_on((#[trigger] all[j]).report.commits, day@),
    {
        assert(all[i as int] == checkouts@[i as int]@);
        if !all_on(&checkouts[i].report.commits, day) {
            return false;
        }
    }
    true
}

fn all_repos_on(repos: &Vec<RepoDigest>, day: &str) -> (answer: bool)
    ensures
        answer == repos_on(strings::views(repos@), day@),
{
    let ghost all = strings::views(repos@);
    for i in 0..repos.len()
        invariant
            all == strings::views(repos@),
            forall|j: int| 0 <= j < i ==> checkouts_on((#[trigger] all[j]).checkouts, day@),
    {
        assert(all[i as int] == repos@[i as int]@);
        if !all_checkouts_on(&repos[i].checkouts, day) {
            return false;
        }
    }
    true
}

pub fn dates_needed(digest: &Digest) -> (answer: bool)
    ensures
        answer == needs_dates(digest@),
{
    let start = date_of(&digest.window.since);
    let end = match &digest.window.until {
        Some(until) => date_of(until),
        None => date_of(&digest.generated_at),
    };
    if !strings::same(start.as_str(), end.as_str()) {
        return true;
    }
    !all_repos_on(&digest.repos, start.as_str())
}

pub open spec fn instant_text(stamp: Stamp<Text>, with_date: bool) -> Text {
    if with_date {
        stamp.local
    } else {
        time_text(stamp)
    }
}

/// How a commit's instant is printed: `09:12` inside a single day, the full
/// local date and time once the window spans more than one.
pub fn commit_time(stamp: &Stamp, with_date: bool) -> (out: String)
    ensures
        out@ == instant_text(stamp@, with_date),
{
    if with_date {
        stamp.local.clone()
    } else {
        time_of(stamp)
    }
}

/// Why this window, when the answer is not "the default".
pub open spec fn window_text(window: Window<Text>) -> Option<Text> {
    match window.source {
        WindowSource::Default => None,
        WindowSource::Explicit { spec } => Some("window from --since \""@ + spec + "\""@),
        WindowSource::SinceLast { previous_run } => Some(
            "window from --since-last; the previous run was "@ + previous_run.full(),
        ),
        WindowSource::SinceLastFirstRun => Some(
            "window from --since-last, but no previous run is on record \u{2014} showing today instead"@,
        ),
        WindowSource::Rollup { period: Period::Week } => Some(
            "window from --weekly: this ISO week, Monday to now"@,
        ),
        WindowSource::Rollup { period: Period::Month } => Some(
            "window from --monthly: this calendar month, the 1st to now"@,
        ),
    }
}

pub fn window_note(window: &Window) -> (out: Option<String>)
    ensures
        strings::view_of(out) == window_text(window@),
{
    match &window.source {
        WindowSource::Default => None,
        WindowSource::Explicit { spec } => Some(
            strings::cat3("window from --since \"", spec.as_str(), "\""),
        ),
        WindowSource::SinceLast { previous_run } => Some(
            strings::cat2(
                "window from --since-last; the previous run was ",
                previous_run.full().as_str(),
            ),
        ),
        WindowSource::SinceLastFirstRun => Some(
            "window from --since-last, but no previous run is on record \u{2014} showing today instead".to_string(),
        ),
        WindowSource::Rollup { period: Period::Week } => Some(
            "window from --weekly: this ISO week, Monday to now".to_string(),
        ),
        WindowSource::Rollup { period: Period::Month } => Some(
            "window from --monthly: this calendar month, the 1st to now".to_string(),
        ),
    }
}

/// Whether a digest over this window lists individual commits. A rollup does
/// not: a month listed commit by commit is not a digest.
pub fn lists_commits(window: &Window) -> (answer: bool)
    ensures
        answer == !(window@.source is Rollup),
{
    match &window.source {
        WindowSource::Rollup { .. } => false,
        _ => true,
    }
}

/// One word for a checkout with nothing to say.
pub open spec fn quiet_text(activity: Activity) -> Option<Text> {
    if activity == Activity::Quiet {
        Some("quiet"@)
    } else {
        None
    }
}

pub fn quiet_word(activity: Activity) -> (out: Option<&'static str>)
    ensures
        strings::view_of(out) == quiet_text(activity),
{
    match activity {
        Activity::Quiet => Some("quiet"),
        _ => None,
    }
}

// ---------------------------------------------------------------------------
// Ordering
// ---------------------------------------------------------------------------

/// Repositories, loudest first: broken, then busiest, then alphabetical.
pub open spec fn repo_first(a: model::RepoView, b: model::RepoView) -> bool {
    if a.activity() != b.activity() {
        a.activity().rank() > b.activity().rank()
    } else if a.commits != b.commits {
        a.commits > b.commits
    } else if a.churn.insertions != b.churn.insertions {
        a.churn.insertions > b.churn.insertions
    } else {
        strings::precedes(a.name, b.name)
    }
}

/// The instant of the most recent commit, zero where there is none.
pub open spec fn latest(commits: Seq<model::CommitView>) -> i64
    decreases commits.len(),
{
    if commits.len() == 0 {
        0
    } else if commits.len() == 1 {
        commits[0].committed.epoch
    } else {
        let before = latest(commits.drop_last());
        if commits.last().committed.epoch >= before {
            commits.last().committed.epoch
        } else {
            before
        }
    }
}

/// Checkouts within one repository, on the same rule.
pub open spec fn checkout_first(a: model::CheckoutView, b: model::CheckoutView) -> bool {
    let left = a.report;
    let right = b.report;
    if left.activity() != right.activity() {
        left.activity().rank() > right.activity().rank()
    } else if left.commits.len() != right.commits.len() {
        left.commits.len() > right.commits.len()
    } else if latest(left.commits) != latest(right.commits) {
        latest(left.commits) > latest(right.commits)
    } else {
        paths::path_precedes(left.path, right.path)
    }
}

/// Commits newest first.
pub open spec fn commit_first(a: model::CommitView, b: model::CommitView) -> bool {
    if a.committed.epoch != b.committed.epoch {
        a.committed.epoch > b.committed.epoch
    } else {
        strings::precedes(a.oid, b.oid)
    }
}

pub open spec fn repos_sorted(repos: Seq<model::RepoView>) -> Seq<model::RepoView> {
    order::arranged(repos, |a: model::RepoView, b: model::RepoView| repo_first(a, b))
}

pub open spec fn checkouts_sorted(checkouts: Seq<model::CheckoutView>) -> Seq<model::CheckoutView> {
    order::arranged(
        checkouts,
        |a: model::CheckoutView, b: model::CheckoutView| checkout_first(a, b),
    )
}

pub open spec fn commits_sorted(commits: Seq<model::CommitView>) -> Seq<model::CommitView> {
    order::arranged(commits, |a: model::CommitView, b: model::CommitView| commit_first(a, b))
}

fn repo_goes_first(a: &&RepoDigest, b: &&RepoDigest) -> (answer: bool)
    ensures
        answer == repo_first(a@, b@),
{
    let left = a.activity();
    let right = b.activity();
    if left != right {
        left.level() > right.level()
    } else if a.commits != b.commits {
        a.commits > b.commits
    } else if a.churn.insertions != b.churn.insertions {
        a.churn.insertions > b.churn.insertions
    } else {
        strings::comes_first(a.name.as_str(), b.name.as_str())
    }
}

/// The instant of the most recent commit, for ordering.
pub fn latest_of(commits: &Vec<Commit>) -> (out: i64)
    ensures
        out == latest(strings::views(commits@)),
{
    broadcast use strings::group_lists;

    let ghost all = strings::views(commits@);
    if commits.len() == 0 {
        return 0;
    }
    let mut out: i64 = commits[0].committed.epoch;
    assert(all[0] == commits@[0]@);
    assert(all.take(1).len() == 1 && all.take(1)[0] == all[0]);
    for i in 1..commits.len()
        invariant
            1 <= i,
            all == strings::views(commits@),
            out == latest(all.take(i as int)),
    {
        broadcast use strings::group_lists;

        assert(all.take(i as int).push(all[i as int]) == all.take(i + 1));
        assert(all[i as int] == commits@[i as int]@);
        let here = commits[i].committed.epoch;
        if here >= out {
            out = here;
        }
    }
    out
}

fn checkout_goes_first(a: &&CheckoutDigest, b: &&CheckoutDigest) -> (answer: bool)
    ensures
        answer == checkout_first(a@, b@),
{
    let left = a.report.activity();
    let right = b.report.activity();
    assert(a@.report.commits.len() == a.report.commits@.len());
    assert(b@.report.commits.len() == b.report.commits@.len());
    if left != right {
        left.level() > right.level()
    } else if a.report.commits.len() != b.report.commits.len() {
        a.report.commits.len() > b.report.commits.len()
    } else {
        let mine = latest_of(&a.report.commits);
        let theirs = latest_of(&b.report.commits);
        if mine != theirs {
            mine > theirs
        } else {
            paths::comes_first(a.report.path.as_str(), b.report.path.as_str())
        }
    }
}

fn commit_goes_first(a: &&Commit, b: &&Commit) -> (answer: bool)
    ensures
        answer == commit_first(a@, b@),
{
    if a.committed.epoch != b.committed.epoch {
        a.committed.epoch > b.committed.epoch
    } else {
        strings::comes_first(a.oid.as_str(), b.oid.as_str())
    }
}

fn sort_repos<'a>(repos: &'a Vec<RepoDigest>) -> (out: Vec<&'a RepoDigest>)
    ensures
        strings::views(out@) == repos_sorted(strings::views(repos@)),
{
    order::arrange(
        model::repo_refs(repos),
        repo_goes_first,
        Ghost(|a: model::RepoView, b: model::RepoView| repo_first(a, b)),
    )
}

/// Repositories, loudest first.
pub fn sorted_repos(digest: &Digest) -> (out: Vec<&RepoDigest>)
    ensures
        strings::views(out@) == repos_sorted(digest@.repos),
{
    sort_repos(&digest.repos)
}

/// Checkouts within one repository, on the same rule.
pub fn sorted_checkouts(repo: &RepoDigest) -> (out: Vec<&CheckoutDigest>)
    ensures
        strings::views(out@) == checkouts_sorted(repo@.checkouts),
{
    broadcast use strings::group_lists;

    let mut refs: Vec<&CheckoutDigest> = Vec::new();
    for i in 0..repo.checkouts.len()
        invariant
            strings::views(refs@) == strings::views(repo.checkouts@.take(i as int)),
    {
        broadcast use strings::group_lists;

        refs.push(&repo.checkouts[i]);
    }
    order::arrange(
        refs,
        checkout_goes_first,
        Ghost(|a: model::CheckoutView, b: model::CheckoutView| checkout_first(a, b)),
    )
}

/// Commits newest first. When `max_commits` cuts the list it is the oldest that
/// go, and the caller says how many.
pub fn sorted_commits(report: &CheckoutReport) -> (out: Vec<&Commit>)
    ensures
        strings::views(out@) == commits_sorted(report@.commits),
{
    broadcast use strings::group_lists;

    let mut refs: Vec<&Commit> = Vec::new();
    for i in 0..report.commits.len()
        invariant
            strings::views(refs@) == strings::views(report.commits@.take(i as int)),
    {
        broadcast use strings::group_lists;

        refs.push(&report.commits[i]);
    }
    order::arrange(
        refs,
        commit_goes_first,
        Ghost(|a: model::CommitView, b: model::CommitView| commit_first(a, b)),
    )
}

/// The commits that are shown of a report, newest first.
pub open spec fn shown_commits(commits: Seq<model::CommitView>, max: nat) -> Seq<
    model::CommitView,
> {
    if commits.len() <= max {
        commits_sorted(commits)
    } else {
        commits_sorted(commits).take(max as int)
    }
}

/// How many of the commits are held back.
pub open spec fn held_back(commits: Seq<model::CommitView>, max: nat) -> nat {
    if commits.len() <= max {
        0
    } else {
        (commits.len() - max) as nat
    }
}

/// Splits a commit list at `max`, returning what to show and how many were held
/// back. A remainder is always reported as a count, never dropped.
pub fn split_commits<'a>(commits: Vec<&'a Commit>, max: usize) -> (out: (Vec<&'a Commit>, usize))
    ensures
        out.0@ == if commits@.len() <= max {
            commits@
        } else {
            commits@.take(max as int)
        },
        out.1 == if commits@.len() <= max {
            0
        } else {
            commits@.len() - max
        },
{
    let n = commits.len();
    let mut commits = commits;
    if n <= max {
        return (commits, 0);
    }
    commits.truncate(max);
    (commits, n - max)
}

/// The commits to list of a report and how many are held back.
pub fn listed_commits(report: &CheckoutReport, max: usize) -> (out: (Vec<&Commit>, usize))
    ensures
        strings::views(out.0@) == shown_commits(report@.commits, max as nat),
        out.1 == held_back(report@.commits, max as nat),
{
    let commits = sorted_commits(report);
    proof {
        order::law_arranged_keeps_items(
            report@.commits,
            |a: model::CommitView, b: model::CommitView| commit_first(a, b),
        );
        assert(strings::views(commits@).len() == commits@.len());
        if commits@.len() > max {
            strings::lemma_views_take(commits@, max as int);
        }
    }
    split_commits(commits, max)
}

/// A commit is either listed or counted among those held back.
pub proof fn law_no_commit_is_dropped(commits: Seq<model::CommitView>, max: nat)
    ensures
        shown_commits(commits, max).len() + held_back(commits, max) == commits.len(),
        shown_commits(commits, max).len() <= max,
{
    order::law_arranged_keeps_items(
        commits,
        |a: model::CommitView, b: model::CommitView| commit_first(a, b),
    );
}

/// The widest branch label, in columns.
pub open spec fn widest_label(checkouts: Seq<model::CheckoutView>) -> nat
    decreases checkouts.len(),
{
    if checkouts.len() == 0 {
        0
    } else {
        let before = widest_label(checkouts.drop_last());
        let here = columns(head_text(checkouts.last().report.head));
        if here > before {
            here
        } else {
            before
        }
    }
}

pub open spec fn branch_width(checkouts: Seq<model::CheckoutView>) -> nat {
    let widest = widest_label(checkouts);
    if widest < 4 {
        4
    } else if widest > BRANCH_COLUMNS {
        BRANCH_COLUMNS as nat
    } else {
        widest
    }
}

/// Widest branch column a repository needs, capped so that a single long branch
/// name cannot squeeze every path in the block off the screen.
pub fn branch_column(repo: &RepoDigest) -> (n: usize)
    ensures
        n == branch_width(repo@.checkouts),
{
    broadcast use strings::group_lists;

    let ghost all = repo@.checkouts;
    let mut widest: usize = 0;
    for i in 0..repo.checkouts.len()
        invariant
            all == strings::views(repo.checkouts@),
            widest == if widest_label(all.take(i as int)) <= usize::MAX {
                widest_label(all.take(i as int))
            } else {
                usize::MAX as nat
            },
    {
        broadcast use strings::group_lists;

        assert(all.take(i as int).push(all[i as int]) == all.take(i + 1));
        assert(all[i as int] == repo.checkouts@[i as int]@);
        let here = display_width(head_label(&repo.checkouts[i].report.head).as_str());
        if here > widest {
            widest = here;
        }
    }
    if widest < 4 {
        4
    } else if widest > BRANCH_COLUMNS {
        BRANCH_COLUMNS
    } else {
        widest
    }
}

// ---------------------------------------------------------------------------
// Sections
// ---------------------------------------------------------------------------

/// A run of repositories under one heading. There is one without a heading when
/// the digest is not grouped, and one for each group when it is.
pub struct Section<'a> {
    pub heading: Option<String>,
    pub stats: Option<String>,
    pub repos: Vec<&'a RepoDigest>,
}

#[verifier::ext_equal]
pub struct SectionView {
    pub heading: Option<Text>,
    pub stats: Option<Text>,
    pub repos: Seq<model::RepoView>,
}

impl<'a> View for Section<'a> {
    type V = SectionView;

    open spec fn view(&self) -> SectionView {
        SectionView {
            heading: strings::view_of(self.heading),
            stats: strings::view_of(self.stats),
            repos: strings::views(self.repos@),
        }
    }
}

pub open spec fn group_section(group: by_agent::AgentGroupView) -> SectionView {
    SectionView {
        heading: Some(group.label),
        stats: Some(block_text(group.commits, group.churn)),
        repos: repos_sorted(group.repos),
    }
}

pub open spec fn sections_of(
    digest: model::DigestView,
    grouping: Option<by_agent::GroupingView>,
) -> Seq<SectionView> {
    match grouping {
        None => seq![SectionView { heading: None, stats: None, repos: repos_sorted(digest.repos) }],
        Some(grouping) => Seq::new(
            grouping.groups.len(),
            |i: int| group_section(grouping.groups[i]),
        ),
    }
}

/// The sections a digest is laid out in.
pub fn sections<'a>(digest: &'a Digest, grouping: Option<&'a Grouping>) -> (out: Vec<Section<'a>>)
    ensures
        strings::views(out@) == sections_of(digest@, strings::view_of(grouping)),
{
    broadcast use strings::group_lists;

    let mut out: Vec<Section<'a>> = Vec::new();
    match grouping {
        None => {
            out.push(Section { heading: None, stats: None, repos: sorted_repos(digest) });
            assert(strings::views(out@) =~= sections_of(digest@, None));
        },
        Some(grouping) => {
            let ghost all = sections_of(digest@, Some(grouping@));
            for i in 0..grouping.groups.len()
                invariant
                    all == sections_of(digest@, Some(grouping@)),
                    strings::views(out@) == all.take(i as int),
            {
                broadcast use strings::group_lists;

                let group = &grouping.groups[i];
                assert(grouping@.groups[i as int] == group@);
                let section = Section {
                    heading: Some(group.label.clone()),
                    stats: Some(repo_stats(group.commits, group.churn)),
                    repos: sort_repos(&group.repos),
                };
                assert(all[i as int] == section@);
                out.push(section);
            }
            assert(all.take(all.len() as int) =~= all);
        },
    }
    out
}

/// How many repositories the sections hold, in machine words.
pub open spec fn section_total(sections: Seq<SectionView>) -> usize
    decreases sections.len(),
{
    if sections.len() == 0 {
        0
    } else {
        section_total(sections.drop_last()).wrapping_add(sections.last().repos.len() as usize)
    }
}

/// Whether any repository of the sections has something to report.
pub open spec fn any_busy(sections: Seq<SectionView>) -> bool {
    exists|i: int|
        0 <= i < sections.len() && model::busy_among((#[trigger] sections[i]).repos).len() > 0
}

pub open spec fn no_headings(sections: Seq<SectionView>) -> bool {
    forall|i: int| 0 <= i < sections.len() ==> (#[trigger] sections[i]).heading is None
}

/// How many repositories the sections hold.
pub fn total_in(sections: &Vec<Section>) -> (n: usize)
    ensures
        n == section_total(strings::views(sections@)),
{
    broadcast use strings::group_lists;

    let ghost all = strings::views(sections@);
    let mut n: usize = 0;
    for i in 0..sections.len()
        invariant
            all == strings::views(sections@),
            n == section_total(all.take(i as int)),
    {
        broadcast use strings::group_lists;

        assert(all.take(i as int).push(all[i as int]) == all.take(i + 1));
        assert(all[i as int] == sections@[i as int]@);
        n = n.wrapping_add(sections[i].repos.len());
    }
    n
}

/// Whether any repository of the sections has something to report.
pub fn busy_anywhere(sections: &Vec<Section>) -> (answer: bool)
    ensures
        answer == any_busy(strings::views(sections@)),
{
    let ghost all = strings::views(sections@);
    for i in 0..sections.len()
        invariant
            all == strings::views(sections@),
            forall|j: int|
                0 <= j < i ==> model::busy_among((#[trigger] all[j]).repos).len() == 0,
    {
        assert(all[i as int] == sections@[i as int]@);
        let busy = model::busy_of(&sections[i].repos);
        assert(strings::views(busy@).len() == busy@.len());
        if busy.len() > 0 {
            return true;
        }
    }
    false
}

/// Whether none of the sections has a heading.
pub fn without_headings(sections: &Vec<Section>) -> (answer: bool)
    ensures
        answer == no_headings(strings::views(sections@)),
{
    let ghost all = strings::views(sections@);
    for i in 0..sections.len()
        invariant
            all == strings::views(sections@),
            forall|j: int| 0 <= j < i ==> (#[trigger] all[j]).heading is None,
    {
        assert(all[i as int] == sections@[i as int]@);
        if sections[i].heading.is_some() {
            return false;
        }
    }
    true
}

/// The repositories of the sections that have nothing to report, one section
/// after the other.
pub open spec fn all_quiet(sections: Seq<SectionView>) -> Seq<model::RepoView>
    decreases sections.len(),
{
    if sections.len() == 0 {
        Seq::empty()
    } else {
        all_quiet(sections.drop_last()) + model::quiet_among(sections.last().repos)
    }
}

/// The quiet repositories of all sections.
pub fn quiet_in<'a>(sections: &Vec<Section<'a>>) -> (out: Vec<&'a RepoDigest>)
    ensures
        strings::views(out@) == all_quiet(strings::views(sections@)),
{
    broadcast use strings::group_lists;

    let ghost all = strings::views(sections@);
    let mut out: Vec<&'a RepoDigest> = Vec::new();
    for i in 0..sections.len()
        invariant
            all == strings::views(sections@),
            strings::views(out@) == all_quiet(all.take(i as int)),
    {
        broadcast use strings::group_lists;

        assert(all.take(i as int).push(all[i as int]) == all.take(i + 1));
        assert(all[i as int] == sections@[i as int]@);
        let mut quiet = model::quiet_of(&sections[i].repos);
        out.append(&mut quiet);
    }
    out
}

// ---------------------------------------------------------------------------
// Choosing a format
// ---------------------------------------------------------------------------

/// The grouping a configuration asks for.
pub open spec fn grouping_asked(
    digest: model::DigestView,
    config: crate::config::ConfigView,
) -> Option<by_agent::GroupingView> {
    if config.by_agent {
        Some(by_agent::grouping_of(digest, crate::config::tidied(config.ignore)))
    } else {
        None
    }
}

/// The grouping a configuration asks for, if it asks for one.
pub fn grouping(digest: &Digest, config: &Config) -> (out: Option<Grouping>)
    ensures
        strings::view_of(out) == grouping_asked(digest@, config@),
{
    if config.by_agent {
        let ignored = Ignored::new(strings::clone_list(&config.ignore));
        Some(by_agent::group(digest, &ignored))
    } else {
        None
    }
}

/// The digest in the format the configuration asks for. The machine-readable
/// format is not a rendering, so it is nothing here.
pub open spec fn rendered(digest: model::DigestView, config: crate::config::ConfigView) -> Option<
    Text,
> {
    match config.format {
        Format::Text => Some(text::report_text(digest, config)),
        Format::Markdown => Some(
            markdown::digest_text(digest, config, grouping_asked(digest, config)),
        ),
        Format::Slack => Some(slack::digest_text(digest, config, grouping_asked(digest, config))),
        Format::Html => Some(html::digest_text(digest, config)),
        Format::Json => None,
    }
}

/// Renders in whichever format the config asks for; `None` for the
/// machine-readable one, which the caller serialises.
pub fn render(digest: &Digest, config: &Config) -> (out: Option<String>)
    ensures
        strings::view_of(out) == rendered(digest@, config@),
{
    match config.format {
        Format::Text => Some(text::text(digest, config)),
        Format::Markdown => {
            let grouping = grouping(digest, config);
            Some(markdown::markdown(digest, config, grouping.as_ref()))
        },
        Format::Slack => {
            let grouping = grouping(digest, config);
            Some(slack::slack(digest, config, grouping.as_ref()))
        },
        Format::Html => Some(html::html(digest, config)),
        Format::Json => None,
    }
}

/// A comparison in the format the configuration asks for.
pub open spec fn comparison_rendered(
    comparison: model::ComparisonView,
    config: crate::config::ConfigView,
) -> Option<Text> {
    match config.format {
        Format::Text => Some(text::comparison_text(comparison, config.home)),
        Format::Markdown => Some(markdown::comparison_text(comparison, config.home)),
        Format::Slack => Some(slack::comparison_text(comparison, config.home)),
        Format::Html => Some(html::comparison_text(comparison, config.home)),
        Format::Json => None,
    }
}

/// Renders a comparison; `None` for the machine-readable format.
pub fn render_comparison(comparison: &Comparison, config: &Config) -> (out: Option<String>)
    ensures
        strings::view_of(out) == comparison_rendered(comparison@, config@),
{
    match config.format {
        Format::Text => Some(text::comparison(comparison, &config.home)),
        Format::Markdown => Some(markdown::comparison(comparison, &config.home)),
        Format::Slack => Some(slack::comparison(comparison, &config.home)),
        Format::Html => Some(html::comparison(comparison, &config.home)),
        Format::Json => None,
    }
}

} // verus!
