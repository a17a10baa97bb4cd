//! What the digest pane shows, and where.

use vstd::prelude::*;

use crate::model;
use crate::model::{CheckoutDigest, Commit, Head, Landed, Note, RepoDigest, Text, WorkspaceRef};
use crate::paths;
use crate::render;
use crate::strings;
use crate::tui::state;
use crate::tui::state::DigestPane;

verus! {

pub const HELP_WIDE: &'static str =
    "↑/k ↓/j move  wheel scroll  click focus  Enter expand  Esc collapse/back  t today  y yesterday  l since-last  R refresh  q quit";

pub const HELP_NARROW: &'static str =
    "↑↓/jk move · Enter expand · t/y/l window · R refresh · q quit";

/// How many columns a row needs before volumes are written out.
pub const WIDE_ROW: usize = 90;

/// How many lines the details hold before notes are left out.
pub const DETAIL_LINES: usize = 4;

// ---------------------------------------------------------------------------
// Styled text
// ---------------------------------------------------------------------------

#[derive(Debug, Clone, Copy, PartialEq, Eq, Structural)]
pub enum Colour {
    Reset,
    Red,
    Green,
    Yellow,
}

/// A piece of text in one style.
#[derive(Debug, PartialEq, Eq)]
pub struct Span<T = String> {
    pub text: T,
    pub colour: Colour,
    pub bold: bool,
    pub reversed: bool,
}

impl View for Span {
    type V = Span<Text>;

    open spec fn view(&self) -> Span<Text> {
        Span {
            text: self.text@,
            colour: self.colour,
            bold: self.bold,
            reversed: self.reversed,
        }
    }
}

#[derive(Debug, PartialEq, Eq)]
pub struct Line {
    pub spans: Vec<Span>,
}

impl View for Line {
    type V = Seq<Span<Text>>;

    open spec fn view(&self) -> Seq<Span<Text>> {
        strings::views(self.spans@)
    }
}

pub open spec fn plain(text: Text) -> Span<Text> {
    Span { text, colour: Colour::Reset, bold: false, reversed: false }
}

pub open spec fn tag(label: Text, colour: Colour, reversed: bool) -> Span<Text> {
    Span { text: label + " "@, colour, bold: true, reversed }
}

fn plain_span(text: String) -> (out: Span)
    ensures
        out@ == plain(text@),
{
    Span { text, colour: Colour::Reset, bold: false, reversed: false }
}

fn tag_span(label: &str, colour: Colour, reversed: bool) -> (out: Span)
    ensures
        out@ == tag(label@, colour, reversed),
{
    Span { text: strings::cat2(label, " "), colour, bold: true, reversed }
}

fn line_of(span: Span) -> (out: Line)
    ensures
        out@ == seq![span@],
{
    let mut spans: Vec<Span> = Vec::new();
    spans.push(span);
    assert(strings::views(spans@) =~= seq![span@]);
    Line { spans }
}

fn tagged_line(label: &str, colour: Colour, text: String) -> (out: Line)
    ensures
        out@ == seq![tag(label@, colour, false), plain(text@)],
{
    let mut spans: Vec<Span> = Vec::new();
    spans.push(tag_span(label, colour, false));
    spans.push(plain_span(text));
    assert(strings::views(spans@) =~= seq![tag(label@, colour, false), plain(text@)]);
    Line { spans }
}

// ---------------------------------------------------------------------------
// The mouse
// ---------------------------------------------------------------------------

/// A row of the screen on which a checkout was drawn.
#[derive(Debug, Clone, Copy, PartialEq, Eq, Structural)]
pub struct HitRow {
    pub y: u16,
    pub left: u16,
    pub right: u16,
    pub cursor: usize,
}

/// Which checkouts were drawn where.
#[derive(Debug, PartialEq, Eq)]
pub struct MouseMap {
    rows: Vec<HitRow>,
}

impl View for MouseMap {
    type V = Seq<HitRow>;

    closed spec fn view(&self) -> Seq<HitRow> {
        self.rows@
    }
}

impl Default for MouseMap {
    fn default() -> (out: Self)
        ensures
            out@ == Seq::<HitRow>::empty(),
    {
        MouseMap { rows: Vec::new() }
    }
}

pub open spec fn covers(row: HitRow, column: u16, y: u16) -> bool {
    row.y == y && row.left <= column < row.right
}

/// The checkout at a place of the screen.
pub open spec fn hit(rows: Seq<HitRow>, column: u16, y: u16) -> Option<usize>
    decreases rows.len(),
{
    if rows.len() == 0 {
        None
    } else if covers(rows[0], column, y) {
        Some(rows[0].cursor)
    } else {
        hit(rows.drop_first(), column, y)
    }
}

impl MouseMap {
    pub fn cursor_at(&self, column: u16, row: u16) -> (out: Option<usize>)
        ensures
            out == hit(self@, column, row),
    {
        assert(self.rows@.skip(0) =~= self.rows@);
        for i in 0..self.rows.len()
            invariant
                hit(self.rows@.skip(i as int), column, row) == hit(self.rows@, column, row),
        {
            let ghost rest = self.rows@.skip(i as int);
            assert(rest[0] == self.rows@[i as int]);
            assert(rest.drop_first() =~= self.rows@.skip(i + 1));
            let candidate = self.rows[i];
            if candidate.y == row && column >= candidate.left && column < candidate.right {
                return Some(candidate.cursor);
            }
        }
        None
    }
}

// ---------------------------------------------------------------------------
// Regions
// ---------------------------------------------------------------------------

/// How many rows the header and the footer take of a screen.
pub fn region_heights(height: u16) -> (out: (u16, u16))
    ensures
        out.0 == if height >= 12 {
            4u16
        } else {
            3u16
        },
        out.1 == if height >= 18 {
            7u16
        } else {
            4u16
        },
{
    let header: u16 = if height >= 12 {
        4
    } else {
        3
    };
    let footer: u16 = if height >= 18 {
        7
    } else {
        4
    };
    (header, footer)
}

pub open spec fn help_text(width: nat) -> Text {
    if render::columns(HELP_WIDE@) <= width {
        HELP_WIDE@
    } else {
        HELP_NARROW@
    }
}

/// The keys, as many as there is room for.
pub fn help(width: usize) -> (out: &'static str)
    ensures
        out@ == help_text(width as nat),
{
    if render::fits(HELP_WIDE, width) {
        HELP_WIDE
    } else {
        HELP_NARROW
    }
}

/// What the header says: the window and the totals.
pub open spec fn heading(pane: state::PaneView) -> Seq<Text> {
    let window = pane.digest.window;
    let end = match window.until {
        Some(until) => until,
        None => pane.digest.generated_at,
    };
    seq![
        pane.active.label_text() + " · "@ + window.since.full() + " → "@ + end.full(),
        render::block_text(
            model::commit_total(pane.digest.repos),
            model::churn_total(pane.digest.repos),
        ),
    ]
}

pub fn header_lines(pane: &DigestPane) -> (out: Vec<String>)
    ensures
        strings::views(out@) == heading(pane@),
{
    broadcast use strings::group_lists;

    let end = match &pane.digest.window.until {
        Some(until) => until.full(),
        None => pane.digest.generated_at.full(),
    };
    let window = strings::cat5(
        pane.active.label(),
        " · ",
        pane.digest.window.since.full().as_str(),
        " → ",
        end.as_str(),
    );
    let totals = render::repo_stats(pane.digest.total_commits(), pane.digest.total_churn());
    let mut out: Vec<String> = Vec::new();
    out.push(window);
    out.push(totals);
    assert(strings::views(out@) =~= heading(pane@));
    out
}

// ---------------------------------------------------------------------------
// Rows
// ---------------------------------------------------------------------------

/// A row of the body.
#[derive(Debug, PartialEq, Eq)]
pub enum BodyLine<'a> {
    Repository(&'a RepoDigest),
    Checkout { cursor: usize, checkout: &'a CheckoutDigest },
    Commit(&'a Commit),
}

#[verifier::ext_equal]
pub enum BodyView {
    Repository(model::RepoView),
    Checkout { cursor: usize, checkout: model::CheckoutView },
    Commit(model::CommitView),
}

impl<'a> View for BodyLine<'a> {
    type V = BodyView;

    open spec fn view(&self) -> BodyView {
        match self {
            BodyLine::Repository(repo) => BodyView::Repository(repo@),
            BodyLine::Checkout { cursor, checkout } => BodyView::Checkout {
                cursor: *cursor,
                checkout: checkout@,
            },
            BodyLine::Commit(commit) => BodyView::Commit(commit@),
        }
    }
}

pub open spec fn commit_rows(commits: Seq<model::CommitView>) -> Seq<BodyView> {
    Seq::new(commits.len(), |i: int| BodyView::Commit(commits[i]))
}

/// The rows of checkouts, numbered from `first` on: each with its commits where
/// it is expanded.
pub open spec fn checkout_rows(
    checkouts: Seq<model::CheckoutView>,
    first: nat,
    expanded: Seq<Text>,
) -> Seq<BodyView>
    decreases checkouts.len(),
{
    if checkouts.len() == 0 {
        Seq::empty()
    } else {
        let last = checkouts.last();
        let before = checkout_rows(checkouts.drop_last(), first, expanded).push(
            BodyView::Checkout {
                cursor: (first + checkouts.len() - 1) as usize,
                checkout: last,
            },
        );
        if paths::has_place(expanded, last.report.path) {
            before + commit_rows(render::commits_sorted(last.report.commits))
        } else {
            before
        }
    }
}

/// The rows of repositories, each followed by its checkouts.
pub open spec fn repo_rows(repos: Seq<model::RepoView>, expanded: Seq<Text>) -> Seq<BodyView>
    decreases repos.len(),
{
    if repos.len() == 0 {
        Seq::empty()
    } else {
        repo_rows(repos.drop_last(), expanded).push(BodyView::Repository(repos.last()))
            + checkout_rows(
            render::checkouts_sorted(repos.last().checkouts),
            state::gathered(repos.drop_last()).len(),
            expanded,
        )
    }
}

pub open spec fn body_of(pane: state::PaneView) -> Seq<BodyView> {
    repo_rows(render::repos_sorted(pane.digest.repos), pane.expanded)
}

fn push_commits<'a>(out: &mut Vec<BodyLine<'a>>, commits: Vec<&'a Commit>)
    ensures
        strings::views(final(out)@) == strings::views(old(out)@) + commit_rows(
            strings::views(commits@),
        ),
{
    broadcast use strings::group_lists;

    let ghost start = strings::views(out@);
    let ghost all = commit_rows(strings::views(commits@));
    assert(start + all.take(0) =~= start);
    for i in 0..commits.len()
        invariant
            all == commit_rows(strings::views(commits@)),
            strings::views(out@) == start + all.take(i as int),
    {
        broadcast use strings::group_lists;

        assert(strings::views(commits@)[i as int] == commits@[i as int]@);
        out.push(BodyLine::Commit(commits[i]));
        assert(start + all.take(i + 1) =~= (start + all.take(i as int)).push(all[i as int]));
    }
    assert(all.take(all.len() as int) =~= all);
}

fn push_checkouts<'a>(
    out: &mut Vec<BodyLine<'a>>,
    checkouts: Vec<&'a CheckoutDigest>,
    first: usize,
    expanded: &Vec<String>,
)
    requires
        first + checkouts@.len() <= usize::MAX,
    ensures
        strings::views(final(out)@) == strings::views(old(out)@) + checkout_rows(
            strings::views(checkouts@),
            first as nat,
            strings::views(expanded@),
        ),
{
    broadcast use strings::group_lists;

    let ghost start = strings::views(out@);
    let ghost all = strings::views(checkouts@);
    let ghost open = strings::views(expanded@);
    assert(start + checkout_rows(all.take(0), first as nat, open) =~= start);
    for i in 0..checkouts.len()
        invariant
            first + checkouts@.len() <= usize::MAX,
            all == strings::views(checkouts@),
            open == strings::views(expanded@),
            strings::views(out@) == start + checkout_rows(all.take(i as int), first as nat, open),
    {
        broadcast use strings::group_lists;

        let checkout = checkouts[i];
        assert(all.take(i + 1).drop_last() =~= all.take(i as int));
        assert(all[i as int] == checkout@);
        let ghost before = checkout_rows(all.take(i as int), first as nat, open);
        let ghost row = BodyView::Checkout { cursor: (first + i) as usize, checkout: checkout@ };
        out.push(BodyLine::Checkout { cursor: first + i, checkout });
        assert(strings::views(out@) =~= start + before.push(row));
        if paths::holds_place(expanded, checkout.report.path.as_str()) {
            let commits = render::sorted_commits(&checkout.report);
            push_commits(out, commits);
            assert(strings::views(out@) =~= start + (before.push(row) + commit_rows(
                render::commits_sorted(checkout@.report.commits),
            )));
        }
    }
    assert(all.take(all.len() as int) =~= all);
}

/// The rows of the body.
pub fn body_lines(pane: &DigestPane) -> (out: Vec<BodyLine<'_>>)
    ensures
        strings::views(out@) == body_of(pane@),
{
    broadcast use strings::group_lists;

    let repos = render::sorted_repos(&pane.digest);
    let ghost all = strings::views(repos@);
    let ghost open = pane@.expanded;
    let shown = state::display_checkouts(&pane.digest);
    let total = shown.len();
    assert(strings::views(shown@).len() == total);
    let mut out: Vec<BodyLine<'_>> = Vec::new();
    let mut first: usize = 0;
    for i in 0..repos.len()
        invariant
            all == strings::views(repos@),
            open == strings::views(pane.expanded@),
            total == state::gathered(all).len(),
            first == state::gathered(all.take(i as int)).len(),
            strings::views(out@) == repo_rows(all.take(i as int), open),
    {
        broadcast use strings::group_lists;

        let repo = repos[i];
        assert(all.take(i + 1).drop_last() =~= all.take(i as int));
        assert(all[i as int] == repo@);
        proof {
            lemma_gathered_grows(all, i + 1);
        }
        out.push(BodyLine::Repository(repo));
        let checkouts = render::sorted_checkouts(repo);
        let count = checkouts.len();
        assert(strings::views(checkouts@).len() == count);
        push_checkouts(&mut out, checkouts, first, &pane.expanded);
        first = first + count;
    }
    assert(all.take(all.len() as int) =~= all);
    out
}

proof fn lemma_gathered_grows(repos: Seq<model::RepoView>, n: int)
    requires
        0 <= n <= repos.len(),
    ensures
        state::gathered(repos.take(n)).len() <= state::gathered(repos).len(),
    decreases repos.len(),
{
    if n == repos.len() {
        assert(repos.take(n) =~= repos);
    } else {
        lemma_gathered_grows(repos.drop_last(), n);
        assert(repos.drop_last().take(n) =~= repos.take(n));
    }
}

/// The position of the row under the cursor.
pub open spec fn cursor_row(rows: Seq<BodyView>, cursor: usize) -> nat
    decreases rows.len(),
{
    if rows.len() == 0 {
        0
    } else {
        match rows[0] {
            BodyView::Checkout { cursor: here, .. } if here == cursor => 0,
            _ => 1 + cursor_row(rows.drop_first(), cursor),
        }
    }
}

/// The first row that is drawn: as far down as it takes to show the row under
/// the cursor, and never past the end.
pub open spec fn top_row(rows: Seq<BodyView>, cursor: usize, capacity: nat) -> nat {
    if rows.len() <= capacity {
        0
    } else {
        let found = cursor_row(rows, cursor);
        let at = if found < rows.len() {
            found
        } else {
            0
        };
        let wanted = if at + 1 > capacity {
            (at + 1 - capacity) as nat
        } else {
            0
        };
        let most = (rows.len() - capacity) as nat;
        if wanted < most {
            wanted
        } else {
            most
        }
    }
}

fn find_cursor(rows: &Vec<BodyLine<'_>>, cursor: usize) -> (at: usize)
    ensures
        at == cursor_row(strings::views(rows@), cursor),
        at <= rows@.len(),
{
    let ghost all = strings::views(rows@);
    assert(all.skip(0) =~= all);
    for i in 0..rows.len()
        invariant
            all == strings::views(rows@),
            cursor_row(all, cursor) == i + cursor_row(all.skip(i as int), cursor),
    {
        let ghost rest = all.skip(i as int);
        assert(rest[0] == rows@[i as int]@);
        assert(rest.drop_first() =~= all.skip(i + 1));
        if let BodyLine::Checkout { cursor: here, .. } = &rows[i] {
            if *here == cursor {
                return i;
            }
        }
    }
    rows.len()
}

/// Where drawing the body begins.
pub fn first_visible(rows: &Vec<BodyLine<'_>>, cursor: usize, capacity: usize) -> (top: usize)
    ensures
        top == top_row(strings::views(rows@), cursor, capacity as nat),
        top <= rows@.len(),
{
    assert(strings::views(rows@).len() == rows@.len());
    if rows.len() <= capacity {
        return 0;
    }
    let found = find_cursor(rows, cursor);
    let at: usize = if found < rows.len() {
        found
    } else {
        0
    };
    let wanted: usize = if at >= capacity {
        at - capacity + 1
    } else {
        0
    };
    let most = rows.len() - capacity;
    if wanted < most {
        wanted
    } else {
        most
    }
}

/// The rows that are drawn.
pub open spec fn visible(rows: Seq<BodyView>, top: nat, capacity: nat) -> Seq<BodyView> {
    let end = if top + capacity < rows.len() {
        (top + capacity) as int
    } else {
        rows.len() as int
    };
    rows.subrange(top as int, end)
}

/// Where the checkouts among drawn rows can be clicked.
pub open spec fn hits(rows: Seq<BodyView>, x: u16, y: u16, width: u16) -> Seq<HitRow>
    decreases rows.len(),
{
    if rows.len() == 0 {
        Seq::empty()
    } else {
        let before = hits(rows.drop_last(), x, y, width);
        match rows.last() {
            BodyView::Checkout { cursor, .. } => before.push(
                HitRow {
                    y: clipped(y + rows.len() - 1),
                    left: x,
                    right: clipped(x + width),
                    cursor,
                },
            ),
            _ => before,
        }
    }
}

/// A coordinate, at most the largest there is.
pub open spec fn clipped(n: int) -> u16 {
    if n <= u16::MAX {
        n as u16
    } else {
        u16::MAX
    }
}

/// Where the checkouts can be clicked, once the rows from `top` on are drawn
/// below one another from a corner on.
pub fn mouse_map(
    rows: &Vec<BodyLine<'_>>,
    top: usize,
    capacity: usize,
    x: u16,
    y: u16,
    width: u16,
) -> (out: MouseMap)
    requires
        top <= rows@.len(),
    ensures
        out@ == hits(
            visible(strings::views(rows@), top as nat, capacity as nat),
            x,
            y,
            width,
        ),
{
    let ghost all = visible(strings::views(rows@), top as nat, capacity as nat);
    let total = rows.len();
    let left = total - top;
    let count = if capacity < left {
        capacity
    } else {
        left
    };
    assert(all.len() == count);
    let mut hit_rows: Vec<HitRow> = Vec::new();
    assert(hits(all.take(0), x, y, width) =~= Seq::empty());
    for i in 0..count
        invariant
            top + count <= total,
            total == rows@.len(),
            all == visible(strings::views(rows@), top as nat, capacity as nat),
            all.len() == count,
            hit_rows@ == hits(all.take(i as int), x, y, width),
    {
        assert(all[i as int] == rows@[top + i]@);
        assert(all.take(i + 1).drop_last() =~= all.take(i as int));
        if let BodyLine::Checkout { cursor, .. } = &rows[top + i] {
            let below: u128 = y as u128 + i as u128;
            let end: u32 = x as u32 + width as u32;
            hit_rows.push(
                HitRow {
                    y: if below <= u16::MAX as u128 {
                        below as u16
                    } else {
                        u16::MAX
                    },
                    left: x,
                    right: if end <= u16::MAX as u32 {
                        end as u16
                    } else {
                        u16::MAX
                    },
                    cursor: *cursor,
                },
            );
        }
    }
    assert(all.take(all.len() as int) =~= all);
    MouseMap { rows: hit_rows }
}

// ---------------------------------------------------------------------------
// What a row says
// ---------------------------------------------------------------------------

/// What is left of a width, and at least so much.
pub open spec fn room(width: nat, used: nat, least: nat) -> nat {
    if used + least < width {
        (width - used) as nat
    } else {
        least
    }
}

fn room_for(width: usize, used: usize, least: usize) -> (n: usize)
    ensures
        n == room(width as nat, used as nat, least as nat),
{
    if used < width && width - used > least {
        width - used
    } else {
        least
    }
}

/// How wide a text is, at most as wide as a number can say.
fn wide(s: &str) -> (n: usize)
    ensures
        n == render::columns(s@) || (n == usize::MAX && render::columns(s@) > usize::MAX),
{
    render::display_width(s)
}

/// A repository's name on the left, its totals on the right.
pub open spec fn repository_text(repo: model::RepoView, width: nat) -> Text {
    let stats = render::block_text(repo.commits, repo.churn);
    let name = render::cut_right(repo.name, room(width, render::columns(stats) + 5, 8));
    let gap = room(width, render::columns(name) + render::columns(stats) + 2, 1);
    " "@ + name + strings::repeated(' ', gap) + stats
}

/// The room that is left beside some texts.
fn room_beside(width: usize, a: usize, b: usize, more: usize, least: usize) -> (n: usize)
    ensures
        n == room(width as nat, (a + b + more) as nat, least as nat),
{
    let used: u128 = a as u128 + b as u128 + more as u128;
    if used <= usize::MAX as u128 {
        room_for(width, used as usize, least)
    } else {
        least
    }
}

pub fn repository_line(repo: &RepoDigest, width: u16) -> (out: String)
    ensures
        out@ == repository_text(repo@, width as nat),
{
    let total = width as usize;
    let stats = render::repo_stats(repo.commits, repo.churn);
    let stats_width = wide(stats.as_str());
    let budget = room_beside(total, stats_width, 0, 5, 8);
    let name = render::truncate_right(repo.name.as_str(), budget);
    let gap = room_beside(total, wide(name.as_str()), stats_width, 2, 1);
    strings::cat4(
        " ",
        name.as_str(),
        strings::repeat(' ', gap).as_str(),
        stats.as_str(),
    )
}

/// A workspace as it is named in a row.
pub open spec fn workspace_text(workspace: model::WorkspaceView) -> Text {
    match workspace.number {
        Some(number) => "#"@ + strings::decimal(number as nat) + " "@ + workspace.label,
        None => workspace.label,
    }
}

/// The workspaces of a checkout; one that no workspace sits in says so.
pub open spec fn place_text(checkout: model::CheckoutView) -> Text {
    if checkout.workspaces.len() == 0 {
        "closed · "@ + match paths::last_name(checkout.report.path) {
            Some(name) => name,
            None => checkout.report.path,
        }
    } else {
        strings::joined(
            Seq::new(
                checkout.workspaces.len(),
                |i: int| workspace_text(checkout.workspaces[i]),
            ),
            ", "@,
        )
    }
}

fn name_workspace(workspace: &WorkspaceRef) -> (out: String)
    ensures
        out@ == workspace_text(workspace@),
{
    match workspace.number {
        Some(number) => strings::cat4(
            "#",
            strings::number(number).as_str(),
            " ",
            workspace.label.as_str(),
        ),
        None => workspace.label.clone(),
    }
}

fn workspace_label(checkout: &CheckoutDigest) -> (out: String)
    ensures
        out@ == place_text(checkout@),
{
    broadcast use strings::group_lists;

    assert(checkout@.workspaces.len() == checkout.workspaces@.len());
    if checkout.workspaces.len() == 0 {
        let name = match paths::file_name(checkout.report.path.as_str()) {
            Some(name) => name,
            None => checkout.report.path.clone(),
        };
        return strings::cat2("closed · ", name.as_str());
    }
    let ghost named = checkout@.workspaces;
    let ghost all = Seq::new(named.len(), |i: int| workspace_text(named[i]));
    let mut names: Vec<String> = Vec::new();
    for i in 0..checkout.workspaces.len()
        invariant
            named == strings::views(checkout.workspaces@),
            all == Seq::new(named.len(), |i: int| workspace_text(named[i])),
            strings::views(names@) == all.take(i as int),
    {
        broadcast use strings::group_lists;

        assert(named[i as int] == checkout.workspaces@[i as int]@);
        names.push(name_workspace(&checkout.workspaces[i]));
        assert(all.take(i as int).push(all[i as int]) =~= all.take(i + 1));
    }
    assert(all.take(all.len() as int) =~= all);
    strings::join(&names, ", ")
}

pub open spec fn landed_tag(landed: Landed<Text>) -> (Text, Colour) {
    match landed {
        Landed::IsDefault { .. } => ("[DEFAULT]"@, Colour::Green),
        Landed::Merged { .. } => ("[MERGED]"@, Colour::Green),
        Landed::Equivalent { .. } => ("[LANDED]"@, Colour::Green),
        Landed::NotMerged { .. } => ("[UNLANDED]"@, Colour::Yellow),
        Landed::Unknown { .. } => ("[UNKNOWN]"@, Colour::Red),
    }
}

/// Whether a checkout is marked as being in trouble.
pub open spec fn in_trouble(report: model::ReportView) -> bool {
    report.problems.len() > 0 || report.head is BranchDeleted
}

/// What a checkout is tagged with: trouble first, whether it landed, and what
/// would be lost with it.
pub open spec fn status_tags(report: model::ReportView) -> Seq<(Text, Colour)> {
    let trouble = if in_trouble(report) {
        seq![("[ERROR]"@, Colour::Red)]
    } else {
        Seq::empty()
    };
    let landed = trouble.push(landed_tag(report.landed));
    let unpushed = if report.unpushed.at_risk() > 0 {
        landed.push(("[UNPUSHED]"@, Colour::Yellow))
    } else {
        landed
    };
    if report.dirty.clean() {
        unpushed
    } else {
        unpushed.push(("[DIRTY]"@, Colour::Yellow))
    }
}

/// A tag: its label and its colour.
#[derive(Debug, PartialEq, Eq)]
pub struct Tag {
    pub label: &'static str,
    pub colour: Colour,
}

impl View for Tag {
    type V = (Text, Colour);

    open spec fn view(&self) -> (Text, Colour) {
        (self.label@, self.colour)
    }
}

fn tag_landed(landed: &Landed) -> (out: Tag)
    ensures
        out@ == landed_tag(landed@),
{
    match landed {
        Landed::IsDefault { .. } => Tag { label: "[DEFAULT]", colour: Colour::Green },
        Landed::Merged { .. } => Tag { label: "[MERGED]", colour: Colour::Green },
        Landed::Equivalent { .. } => Tag { label: "[LANDED]", colour: Colour::Green },
        Landed::NotMerged { .. } => Tag { label: "[UNLANDED]", colour: Colour::Yellow },
        Landed::Unknown { .. } => Tag { label: "[UNKNOWN]", colour: Colour::Red },
    }
}

/// What a checkout is tagged with.
pub fn status_specs(checkout: &CheckoutDigest) -> (out: Vec<Tag>)
    ensures
        strings::views(out@) == status_tags(checkout@.report),
{
    broadcast use strings::group_lists;

    let report = &checkout.report;
    assert(checkout@.report.problems.len() == report.problems@.len());
    let mut out: Vec<Tag> = Vec::new();
    assert(strings::views(out@) =~= Seq::empty());
    let deleted = match &report.head {
        Head::BranchDeleted { .. } => true,
        _ => false,
    };
    if report.problems.len() > 0 || deleted {
        out.push(Tag { label: "[ERROR]", colour: Colour::Red });
        assert(strings::views(out@) =~= seq![("[ERROR]"@, Colour::Red)]);
    }
    out.push(tag_landed(&report.landed));
    if report.unpushed.at_risk() > 0 {
        out.push(Tag { label: "[UNPUSHED]", colour: Colour::Yellow });
    }
    if !report.dirty.is_clean() {
        out.push(Tag { label: "[DIRTY]", colour: Colour::Yellow });
    }
    out
}

/// How many columns tags take, each with a space behind it.
pub open spec fn tags_width(tags: Seq<(Text, Colour)>) -> nat
    decreases tags.len(),
{
    if tags.len() == 0 {
        0
    } else {
        tags_width(tags.drop_last()) + render::columns(tags.last().0) + 1
    }
}

/// A text with spaces behind it up to so many characters.
pub open spec fn padded(s: Text, width: nat) -> Text {
    s + strings::repeated(
        ' ',
        if s.len() < width {
            (width - s.len()) as nat
        } else {
            0
        },
    )
}

pub open spec fn volume_text(report: model::ReportView, width: nat) -> Text {
    if width < WIDE_ROW {
        strings::decimal(report.commits.len()) + "c "@ + strings::decimal(
            report.churn.files as nat,
        ) + "f +"@ + strings::decimal(report.churn.insertions as nat) + " −"@ + strings::decimal(
            report.churn.deletions as nat,
        )
    } else {
        render::block_text(report.commits.len() as usize, report.churn)
    }
}

/// How many columns the texts of a checkout row share.
pub open spec fn shared_columns(tags: Seq<(Text, Colour)>, width: nat) -> nat {
    room(width, 4 + tags_width(tags) + 3, 0)
}

/// The texts of a checkout row: whether it is expanded, where it is, its branch
/// and its volume, each in its column.
pub open spec fn checkout_text(
    checkout: model::CheckoutView,
    expanded: bool,
    width: nat,
) -> Text {
    let columns = shared_columns(status_tags(checkout.report), width);
    let place = room(columns * 2 / 5, 0, 1);
    let branch = room(columns * 3 / 10, 0, 1);
    let volume = room(columns, place + branch, 1);
    let marker = if expanded {
        " ▾ "@
    } else {
        " ▸ "@
    };
    marker + padded(render::cut_right(place_text(checkout), place), place) + " "@ + padded(
        render::cut_right(render::head_text(checkout.report.head), branch),
        branch,
    ) + " "@ + padded(
        render::cut_right(volume_text(checkout.report, width), volume),
        volume,
    ) + " "@
}

pub open spec fn tag_spans(tags: Seq<(Text, Colour)>, reversed: bool) -> Seq<Span<Text>> {
    Seq::new(tags.len(), |i: int| tag(tags[i].0, tags[i].1, reversed))
}

/// A checkout row: its texts, then its tags, all reversed under the cursor.
pub open spec fn checkout_spans(
    checkout: model::CheckoutView,
    expanded: bool,
    selected: bool,
    width: nat,
) -> Seq<Span<Text>> {
    seq![
        Span {
            text: checkout_text(checkout, expanded, width),
            colour: Colour::Reset,
            bold: false,
            reversed: selected,
        },
    ] + tag_spans(status_tags(checkout.report), selected)
}

fn measure_tags(tags: &Vec<Tag>) -> (n: usize)
    ensures
        n == tags_width(strings::views(tags@)) || n == usize::MAX,
        n <= tags_width(strings::views(tags@)),
{
    broadcast use strings::group_lists;

    let ghost all = strings::views(tags@);
    let mut total: usize = 0;
    for i in 0..tags.len()
        invariant
            all == strings::views(tags@),
            total == tags_width(all.take(i as int)) || total == usize::MAX,
            total <= tags_width(all.take(i as int)),
    {
        broadcast use strings::group_lists;

        assert(all.take(i + 1).drop_last() =~= all.take(i as int));
        assert(all[i as int] == tags@[i as int]@);
        let here = wide(tags[i].label);
        let sum: u128 = total as u128 + here as u128 + 1;
        total = if sum <= usize::MAX as u128 {
            sum as usize
        } else {
            usize::MAX
        };
    }
    assert(all.take(all.len() as int) =~= all);
    total
}

fn pad(s: String, width: usize) -> (out: String)
    ensures
        out@ == padded(s@, width as nat),
{
    let len = s.as_str().unicode_len();
    let gap: usize = if len < width {
        width - len
    } else {
        0
    };
    strings::cat2(s.as_str(), strings::repeat(' ', gap).as_str())
}

fn volume_of(checkout: &CheckoutDigest, width: u16) -> (out: String)
    ensures
        out@ == volume_text(checkout@.report, width as nat),
{
    let report = &checkout.report;
    assert(checkout@.report.commits.len() == report.commits@.len());
    if (width as usize) < WIDE_ROW {
        let start = strings::cat4(
            strings::number(report.commits.len() as u64).as_str(),
            "c ",
            strings::number(report.churn.files as u64).as_str(),
            "f +",
        );
        strings::cat4(
            start.as_str(),
            strings::number(report.churn.insertions).as_str(),
            " −",
            strings::number(report.churn.deletions).as_str(),
        )
    } else {
        render::repo_stats(report.commits.len(), report.churn)
    }
}

fn column_widths(columns: usize) -> (out: (usize, usize, usize))
    requires
        columns <= u16::MAX,
    ensures
        out.0 == room((columns * 2 / 5) as nat, 0, 1),
        out.1 == room((columns * 3 / 10) as nat, 0, 1),
        out.2 == room(columns as nat, (out.0 + out.1) as nat, 1),
{
    let place = room_for(columns * 2 / 5, 0, 1);
    let branch = room_for(columns * 3 / 10, 0, 1);
    let volume = room_for(columns, place + branch, 1);
    (place, branch, volume)
}

fn checkout_row_text(
    checkout: &CheckoutDigest,
    tags: &Vec<Tag>,
    expanded: bool,
    width: u16,
) -> (out: String)
    requires
        strings::views(tags@) == status_tags(checkout@.report),
    ensures
        out@ == checkout_text(checkout@, expanded, width as nat),
{
    let columns = room_beside(width as usize, measure_tags(tags), 4, 3, 0);
    assert(columns == shared_columns(status_tags(checkout@.report), width as nat));
    let (place, branch, volume) = column_widths(columns);
    let marker = if expanded {
        " ▾ "
    } else {
        " ▸ "
    };
    let where_text = pad(
        render::truncate_right(workspace_label(checkout).as_str(), place),
        place,
    );
    let head_text = pad(
        render::truncate_right(render::head_label(&checkout.report.head).as_str(), branch),
        branch,
    );
    let size_text = pad(
        render::truncate_right(volume_of(checkout, width).as_str(), volume),
        volume,
    );
    let start = strings::cat4(marker, where_text.as_str(), " ", head_text.as_str());
    strings::cat4(start.as_str(), " ", size_text.as_str(), " ")
}

fn spans_of_tags(tags: &Vec<Tag>, reversed: bool) -> (out: Vec<Span>)
    ensures
        strings::views(out@) == tag_spans(strings::views(tags@), reversed),
{
    broadcast use strings::group_lists;

    let ghost all = tag_spans(strings::views(tags@), reversed);
    let mut out: Vec<Span> = Vec::new();
    for i in 0..tags.len()
        invariant
            all == tag_spans(strings::views(tags@), reversed),
            strings::views(out@) == all.take(i as int),
    {
        broadcast use strings::group_lists;

        assert(strings::views(tags@)[i as int] == tags@[i as int]@);
        out.push(tag_span(tags[i].label, tags[i].colour, reversed));
        assert(all.take(i as int).push(all[i as int]) =~= all.take(i + 1));
    }
    assert(all.take(all.len() as int) =~= all);
    out
}

/// A checkout row.
pub fn checkout_line(
    pane: &DigestPane,
    cursor: usize,
    checkout: &CheckoutDigest,
    width: u16,
) -> (out: Line)
    ensures
        out@ == checkout_spans(
            checkout@,
            paths::has_place(pane@.expanded, checkout@.report.path),
            pane@.cursor == cursor,
            width as nat,
        ),
{
    broadcast use strings::group_lists;

    let selected = pane.cursor == cursor;
    let expanded = paths::holds_place(&pane.expanded, checkout.report.path.as_str());
    let tags = status_specs(checkout);
    let text = checkout_row_text(checkout, &tags, expanded, width);
    let mut spans: Vec<Span> = Vec::new();
    spans.push(Span { text, colour: Colour::Reset, bold: false, reversed: selected });
    let mut more = spans_of_tags(&tags, selected);
    let ghost first = strings::views(spans@);
    spans.append(&mut more);
    assert(strings::views(spans@) =~= first + tag_spans(
        status_tags(checkout@.report),
        selected,
    ));
    assert(first =~= seq![first[0]]);
    Line { spans }
}

/// A commit row: when, which, and what it says of itself.
pub open spec fn commit_spans(commit: model::CommitView, width: nat) -> Seq<Span<Text>> {
    let fixed = "     "@ + render::instant_text(commit.committed, true) + "  "@
        + strings::leading(commit.oid, model::OID_COLUMNS as nat) + "  "@;
    let subject = render::cut_right(
        strings::trimmed(commit.subject),
        room(width, render::columns(fixed), 8),
    );
    let spans = seq![plain(fixed), plain(subject)];
    if commit.is_merge {
        spans + seq![plain(" "@), tag("[MERGE]"@, Colour::Green, false)]
    } else {
        spans
    }
}

pub fn commit_line(commit: &Commit, width: u16) -> (out: Line)
    ensures
        out@ == commit_spans(commit@, width as nat),
{
    broadcast use strings::group_lists;

    let fixed = strings::cat5(
        "     ",
        render::commit_time(&commit.committed, true).as_str(),
        "  ",
        commit.short_oid().as_str(),
        "  ",
    );
    let budget = room_for(width as usize, wide(fixed.as_str()), 8);
    let subject = render::truncate_right(
        strings::trim(commit.subject.as_str()).as_str(),
        budget,
    );
    let mut spans: Vec<Span> = Vec::new();
    spans.push(plain_span(fixed));
    spans.push(plain_span(subject));
    if commit.is_merge {
        spans.push(plain_span(" ".to_string()));
        spans.push(tag_span("[MERGE]", Colour::Green, false));
    }
    assert(strings::views(spans@) =~= commit_spans(commit@, width as nat));
    Line { spans }
}

// ---------------------------------------------------------------------------
// Details
// ---------------------------------------------------------------------------

pub open spec fn message_lines(message: Option<state::Message<Text>>) -> Seq<Seq<Span<Text>>> {
    match message {
        Some(message) => seq![
            seq![
                if message.error {
                    tag("[ERROR]"@, Colour::Red, false)
                } else {
                    tag("[STATUS]"@, Colour::Reset, false)
                },
                plain(message.text),
            ],
        ],
        None => Seq::empty(),
    }
}

/// What would be lost with a checkout, in words.
pub open spec fn facts(report: model::ReportView) -> Seq<Text> {
    let first = match render::unpushed_text(report.unpushed) {
        Some(text) => seq![text],
        None => Seq::empty(),
    };
    match render::dirty_text(report.dirty) {
        Some(text) => first.push(text),
        None => first,
    }
}

pub open spec fn problem_lines(problems: Seq<Text>) -> Seq<Seq<Span<Text>>> {
    Seq::new(
        problems.len(),
        |i: int| seq![tag("[ERROR]"@, Colour::Red, false), plain(problems[i])],
    )
}

/// What is said of the checkout under the cursor: where it is and whether it
/// landed, what would be lost with it, and every problem.
pub open spec fn report_lines(report: model::ReportView) -> Seq<Seq<Span<Text>>> {
    let first = seq![
        seq![
            plain(
                report.path + " · "@ + render::landed_text(
                    report.landed,
                    render::REF_COLUMNS as nat,
                ),
            ),
        ],
    ];
    let second = if facts(report).len() > 0 {
        first.push(seq![plain(strings::joined(facts(report), " · "@))])
    } else {
        first
    };
    second + problem_lines(report.problems)
}

/// Lines with notes behind them, as long as there are few.
pub open spec fn with_notes(
    lines: Seq<Seq<Span<Text>>>,
    notes: Seq<Note<Text>>,
) -> Seq<Seq<Span<Text>>>
    decreases notes.len(),
{
    if notes.len() == 0 || lines.len() >= DETAIL_LINES {
        lines
    } else {
        with_notes(lines.push(seq![plain(notes[0].message)]), notes.drop_first())
    }
}

pub open spec fn details(pane: state::PaneView) -> Seq<Seq<Span<Text>>> {
    let message = message_lines(pane.message);
    let report = if pane.cursor < pane.rows() {
        message + report_lines(state::displayed(pane.digest)[pane.cursor as int].report)
    } else {
        message
    };
    with_notes(report, pane.digest.notes)
}

fn fact_list(checkout: &CheckoutDigest) -> (out: Vec<String>)
    ensures
        strings::views(out@) == facts(checkout@.report),
{
    broadcast use strings::group_lists;

    let mut out: Vec<String> = Vec::new();
    assert(strings::views(out@) =~= Seq::empty());
    if let Some(text) = render::unpushed_sentence(&checkout.report.unpushed) {
        out.push(text);
        assert(strings::views(out@) =~= seq![text@]);
    }
    if let Some(text) = render::dirty_sentence(&checkout.report.dirty) {
        out.push(text);
    }
    out
}

fn push_report(lines: &mut Vec<Line>, checkout: &CheckoutDigest)
    ensures
        strings::views(final(lines)@) == strings::views(old(lines)@) + report_lines(
            checkout@.report,
        ),
{
    broadcast use strings::group_lists;

    let ghost start = strings::views(lines@);
    let ghost report = checkout@.report;
    let landed = render::landed_sentence(&checkout.report.landed, render::REF_COLUMNS);
    let first = strings::cat3(checkout.report.path.as_str(), " · ", landed.as_str());
    lines.push(line_of(plain_span(first)));
    let facts_here = fact_list(checkout);
    assert(strings::views(facts_here@).len() == facts_here@.len());
    if facts_here.len() > 0 {
        lines.push(line_of(plain_span(strings::join(&facts_here, " · "))));
    }
    let ghost before = strings::views(lines@);
    let ghost all = problem_lines(report.problems);
    assert(before + all.take(0) =~= before);
    for i in 0..checkout.report.problems.len()
        invariant
            report == checkout@.report,
            all == problem_lines(report.problems),
            strings::views(lines@) == before + all.take(i as int),
    {
        broadcast use strings::group_lists;

        assert(report.problems[i as int] == checkout.report.problems@[i as int]@);
        let problem = checkout.report.problems[i].clone();
        lines.push(tagged_line("[ERROR]", Colour::Red, problem));
        assert(before + all.take(i + 1) =~= (before + all.take(i as int)).push(all[i as int]));
    }
    assert(all.take(all.len() as int) =~= all);
    assert(strings::views(lines@) =~= start + report_lines(report));
}

fn push_notes(lines: &mut Vec<Line>, notes: &Vec<Note>)
    ensures
        strings::views(final(lines)@) == with_notes(
            strings::views(old(lines)@),
            strings::views(notes@),
        ),
{
    broadcast use strings::group_lists;

    let ghost start = strings::views(lines@);
    let ghost all = strings::views(notes@);
    assert(all.skip(0) =~= all);
    for i in 0..notes.len()
        invariant
            start == strings::views(old(lines)@),
            all == strings::views(notes@),
            with_notes(strings::views(lines@), all.skip(i as int)) == with_notes(start, all),
    {
        broadcast use strings::group_lists;

        let ghost rest = all.skip(i as int);
        assert(rest[0] == notes@[i as int]@);
        assert(rest.drop_first() =~= all.skip(i + 1));
        assert(strings::views(lines@).len() == lines@.len());
        if lines.len() >= DETAIL_LINES {
            return ;
        }
        lines.push(line_of(plain_span(notes[i].message.clone())));
    }
    assert(strings::views(lines@).len() == lines@.len());
}

/// What is said below the body: what just happened, the checkout under the
/// cursor, and as many notes as there is room for.
pub fn detail_lines(pane: &DigestPane) -> (out: Vec<Line>)
    ensures
        strings::views(out@) == details(pane@),
{
    broadcast use strings::group_lists;

    let mut lines: Vec<Line> = Vec::new();
    assert(strings::views(lines@) =~= Seq::empty());
    if let Some(message) = &pane.message {
        let text = message.text.clone();
        if message.error {
            lines.push(tagged_line("[ERROR]", Colour::Red, text));
        } else {
            lines.push(tagged_line("[STATUS]", Colour::Reset, text));
        }
        assert(strings::views(lines@) =~= message_lines(pane@.message));
    }
    if let Some(checkout) = pane.checkout(pane.cursor) {
        push_report(&mut lines, checkout);
    }
    push_notes(&mut lines, &pane.digest.notes);
    lines
}

// ---------------------------------------------------------------------------
// Laws
// ---------------------------------------------------------------------------

/// The row under the cursor is always among those that are drawn.
pub proof fn law_the_cursor_is_in_view(rows: Seq<BodyView>, cursor: usize, capacity: nat)
    requires
        capacity > 0,
        cursor_row(rows, cursor) < rows.len(),
    ensures
        ({
            let top = top_row(rows, cursor, capacity);
            top <= cursor_row(rows, cursor) < top + capacity
        }),
{
}

/// Trouble is never hidden: a checkout with a problem is tagged as such.
pub proof fn law_trouble_is_tagged(report: model::ReportView)
    requires
        in_trouble(report),
    ensures
        status_tags(report).len() > 0,
        status_tags(report)[0] == ("[ERROR]"@, Colour::Red),
{
}

/// A click is on the first row that it lies on, and on none beside them all.
pub proof fn law_a_click_is_on_the_row_it_lies_on(
    rows: Seq<HitRow>,
    column: u16,
    y: u16,
    k: int,
)
    ensures
        0 <= k < rows.len() && rows[k].y == y && rows[k].left <= column < rows[k].right && (forall|
            j: int,
        |
            0 <= j < k ==> !((#[trigger] rows[j]).y == y && rows[j].left <= column < rows[j].right))
            ==> hit(rows, column, y) == Some(rows[k].cursor),
        (forall|j: int|
            0 <= j < rows.len() ==> !((#[trigger] rows[j]).y == y && rows[j].left <= column
                < rows[j].right)) ==> hit(rows, column, y) is None,
    decreases rows.len(),
{
    if rows.len() > 0 {
        let rest = rows.drop_first();
        law_a_click_is_on_the_row_it_lies_on(rest, column, y, k - 1);
        assert(forall|j: int| 0 <= j < rest.len() ==> #[trigger] rest[j] == rows[j + 1]);
        assert(rows[0] == rows.first());
        if forall|j: int|
            0 <= j < k ==> !((#[trigger] rows[j]).y == y && rows[j].left <= column
                < rows[j].right) {
            assert forall|j: int| 0 <= j < k - 1 && j < rest.len() implies !((
            #[trigger] rest[j]).y == y && rest[j].left <= column < rest[j].right) by {
                assert(rest[j] == rows[j + 1]);
            }
        }
        if forall|j: int|
            0 <= j < rows.len() ==> !((#[trigger] rows[j]).y == y && rows[j].left <= column
                < rows[j].right) {
            assert forall|j: int| 0 <= j < rest.len() implies !((#[trigger] rest[j]).y == y
                && rest[j].left <= column < rest[j].right) by {
                assert(rest[j] == rows[j + 1]);
            }
        }
    }
}

/// Every checkout that is drawn can be clicked, on the line it is drawn on and
/// over its whole width; nothing else can.
pub proof fn law_every_drawn_checkout_can_be_clicked(
    rows: Seq<BodyView>,
    row: BodyView,
    x: u16,
    y: u16,
    width: u16,
)
    ensures
        hits(Seq::empty(), x, y, width) == Seq::<HitRow>::empty(),
        row is Checkout && y + rows.len() <= u16::MAX && x + width <= u16::MAX ==> hits(
            rows.push(row),
            x,
            y,
            width,
        ) == hits(rows, x, y, width).push(
            HitRow {
                y: (y + rows.len()) as u16,
                left: x,
                right: (x + width) as u16,
                cursor: row->cursor,
            },
        ),
        !(row is Checkout) ==> hits(rows.push(row), x, y, width) == hits(rows, x, y, width),
{
    assert(rows.push(row).drop_last() =~= rows);
}

/// A checkout is one row, with the commits it has behind it, newest first, where
/// it is expanded; the rows are numbered through.
pub proof fn law_an_expanded_checkout_shows_its_commits(
    checkouts: Seq<model::CheckoutView>,
    checkout: model::CheckoutView,
    first: nat,
    expanded: Seq<Text>,
    repos: Seq<model::RepoView>,
    repo: model::RepoView,
)
    ensures
        checkout_rows(Seq::empty(), first, expanded) == Seq::<BodyView>::empty(),
        ({
            let before = checkout_rows(checkouts, first, expanded);
            let after = checkout_rows(checkouts.push(checkout), first, expanded);
            let commits = render::commits_sorted(checkout.report.commits);
            &&& before.is_prefix_of(after)
            &&& after[before.len() as int] == (BodyView::Checkout {
                cursor: (first + checkouts.len()) as usize,
                checkout,
            })
            &&& !paths::has_place(expanded, checkout.report.path) ==> after.len() == before.len()
                + 1
            &&& paths::has_place(expanded, checkout.report.path) ==> after.len() == before.len() + 1
                + commits.len() && forall|i: int|
                0 <= i < commits.len() ==> after[before.len() + 1 + i] == BodyView::Commit(
                    #[trigger] commits[i],
                )
        }),
        repo_rows(Seq::empty(), expanded) == Seq::<BodyView>::empty(),
        repo_rows(repos.push(repo), expanded) == repo_rows(repos, expanded).push(
            BodyView::Repository(repo),
        ) + checkout_rows(
            render::checkouts_sorted(repo.checkouts),
            state::gathered(repos).len(),
            expanded,
        ),
{
    assert(checkouts.push(checkout).drop_last() =~= checkouts);
    assert(repos.push(repo).drop_last() =~= repos);
}

/// What is drawn is a run of the rows, as many as there is room for.
pub proof fn law_as_many_rows_are_drawn_as_fit(
    rows: Seq<BodyView>,
    cursor: usize,
    capacity: nat,
    i: int,
)
    ensures
        ({
            let top = top_row(rows, cursor, capacity);
            let drawn = visible(rows, top, capacity);
            &&& drawn.len() == (if rows.len() < capacity {
                rows.len()
            } else {
                capacity
            })
            &&& 0 <= i < drawn.len() ==> drawn[i] == rows[top + i]
        }),
{
}

/// A checkout is tagged with what holds of it: trouble, where its work got, and
/// whether anything is unpushed or uncommitted. Tags that stand for different
/// things differ.
pub proof fn law_a_checkout_is_tagged_with_what_holds(report: model::ReportView)
    ensures
        ({
            let tags = status_tags(report);
            let trouble = report.problems.len() > 0 || report.head is BranchDeleted;
            let risky = report.unpushed is Commits && report.unpushed->count > 0;
            let changed = report.dirty.tracked_changed > 0 || report.dirty.untracked > 0
                || report.dirty.conflicted > 0;
            let at = if trouble {
                1int
            } else {
                0int
            };
            &&& tags[at] == landed_tag(report.landed)
            &&& tags.len() == at + 1 + (if risky {
                1int
            } else {
                0int
            }) + (if changed {
                1int
            } else {
                0int
            })
            &&& trouble ==> tags[0] == ("[ERROR]"@, Colour::Red)
            &&& risky ==> tags[at + 1] == ("[UNPUSHED]"@, Colour::Yellow)
            &&& changed ==> tags.last() == ("[DIRTY]"@, Colour::Yellow)
            &&& report.landed is NotMerged <==> landed_tag(report.landed).1 is Yellow
            &&& report.landed is Unknown <==> landed_tag(report.landed).1 is Red
            &&& report.landed is IsDefault ==> landed_tag(report.landed).0 == "[DEFAULT]"@
            &&& report.landed is Merged ==> landed_tag(report.landed).0 == "[MERGED]"@
            &&& report.landed is Equivalent ==> landed_tag(report.landed).0 == "[LANDED]"@
            &&& report.landed is NotMerged ==> landed_tag(report.landed).0 == "[UNLANDED]"@
            &&& report.landed is Unknown ==> landed_tag(report.landed).0 == "[UNKNOWN]"@
        }),
{
}

/// The details tell the message, then where the selected checkout lies and where
/// its work got, then what is unfinished in it, and every problem it has.
pub proof fn law_every_problem_is_in_the_details(pane: state::PaneView, i: int)
    requires
        pane.cursor < pane.rows(),
        0 <= i < state::displayed(pane.digest)[pane.cursor as int].report.problems.len(),
    ensures
        ({
            let report = state::displayed(pane.digest)[pane.cursor as int].report;
            details(pane).contains(
                seq![
                    tag("[ERROR]"@, Colour::Red, false),
                    Span {
                        text: report.problems[i],
                        colour: Colour::Reset,
                        bold: false,
                        reversed: false,
                    },
                ],
            )
        }),
        pane.message is Some ==> details(pane).len() > 0 && details(pane)[0].len() == 2
            && details(pane)[0][1].text == (pane.message->0).text,
{
    let report = state::displayed(pane.digest)[pane.cursor as int].report;
    let lines = report_lines(report);
    let told = seq![tag("[ERROR]"@, Colour::Red, false), plain(report.problems[i])];
    let own = (lines.len() - report.problems.len()) as int;
    assert(lines[own + i] == problem_lines(report.problems)[i]);
    let message = message_lines(pane.message);
    let all = message + lines;
    assert(all[message.len() + own + i] == told);
    lemma_notes_are_added(all, pane.digest.notes);
    assert(details(pane)[message.len() + own + i] == told);
    if pane.message is Some {
        assert(all[0] == message[0]);
        assert(details(pane)[0] == all[0]);
    }
}

proof fn lemma_notes_are_added(lines: Seq<Seq<Span<Text>>>, notes: Seq<Note<Text>>)
    ensures
        lines.is_prefix_of(with_notes(lines, notes)),
        with_notes(lines, notes).len() <= (if lines.len() > DETAIL_LINES {
            lines.len()
        } else {
            DETAIL_LINES as nat
        }),
        lines.len() < DETAIL_LINES && notes.len() > 0 ==> with_notes(lines, notes).len()
            > lines.len() && with_notes(lines, notes)[lines.len() as int] == seq![
            plain(notes[0].message),
        ],
    decreases notes.len(),
{
    if notes.len() > 0 && lines.len() < DETAIL_LINES {
        let more = lines.push(seq![plain(notes[0].message)]);
        lemma_notes_are_added(more, notes.drop_first());
        assert(more[lines.len() as int] == seq![plain(notes[0].message)]);
    }
}

/// Notes fill up the lines that are left, the first ones first, and take none from
/// the rest.
pub proof fn law_notes_fill_up_the_details(
    lines: Seq<Seq<Span<Text>>>,
    notes: Seq<Note<Text>>,
)
    ensures
        lines.is_prefix_of(with_notes(lines, notes)),
        lines.len() <= DETAIL_LINES ==> with_notes(lines, notes).len() <= DETAIL_LINES,
        lines.len() < DETAIL_LINES && notes.len() > 0 ==> with_notes(lines, notes).len()
            > lines.len() && with_notes(lines, notes)[lines.len() as int] == seq![
            plain(notes[0].message),
        ],
{
    lemma_notes_are_added(lines, notes);
}

/// What is unfinished in a checkout is told: what is unpushed, then what is
/// uncommitted, each where there is any.
pub proof fn law_what_is_unfinished_is_in_the_details(report: model::ReportView)
    ensures
        render::unpushed_text(report.unpushed) is Some ==> facts(report).contains(
            render::unpushed_text(report.unpushed)->0,
        ),
        render::dirty_text(report.dirty) is Some ==> facts(report).contains(
            render::dirty_text(report.dirty)->0,
        ),
        facts(report).len() == 0 <==> render::unpushed_text(report.unpushed) is None
            && render::dirty_text(report.dirty) is None,
        facts(report).len() <= 2,
{
    if render::unpushed_text(report.unpushed) is Some {
        assert(facts(report)[0] == render::unpushed_text(report.unpushed)->0);
    }
    if render::dirty_text(report.dirty) is Some {
        assert(facts(report)[facts(report).len() - 1] == render::dirty_text(report.dirty)->0);
    }
}

/// The heading tells the window by its name, its start and its end, and the totals
/// of the whole digest.
pub proof fn law_the_heading_tells_the_window(pane: state::PaneView)
    ensures
        ({
            let window = pane.digest.window;
            let end = if window.until is Some {
                window.until->0
            } else {
                pane.digest.generated_at
            };
            &&& heading(pane).len() == 2
            &&& strings::begins(heading(pane)[0], pane.active.label_text())
            &&& strings::holds(heading(pane)[0], window.since.local + " "@ + window.since.zone)
            &&& strings::ends(heading(pane)[0], end.local + " "@ + end.zone)
            &&& heading(pane)[1] == render::block_text(
                model::commit_total(pane.digest.repos),
                model::churn_total(pane.digest.repos),
            )
        }),
{
    let window = pane.digest.window;
    let end = match window.until {
        Some(until) => until,
        None => pane.digest.generated_at,
    };
    let label = pane.active.label_text();
    let since = window.since.full();
    let start = label + " · "@ + since + " → "@;
    let told = start + end.full();
    assert(told.take(label.len() as int) =~= label);
    assert(told.skip(start.len() as int) =~= end.full());
    strings::lemma_holds_itself(since);
    strings::lemma_holds_together(label + " · "@, since, since);
    strings::lemma_holds_together(label + " · "@ + since, " → "@, since);
    strings::lemma_holds_together(start, end.full(), since);
}

/// A row tells what it is about: a repository its totals, a commit its time, its
/// id and whether it is a merge.
pub proof fn law_a_row_tells_what_it_is_about(
    repo: model::RepoView,
    commit: model::CommitView,
    width: nat,
)
    ensures
        strings::ends(
            repository_text(repo, width),
            render::block_text(repo.commits, repo.churn),
        ),
        commit_spans(commit, width).len() == (if commit.is_merge {
            4int
        } else {
            2int
        }),
        strings::holds(commit_spans(commit, width)[0].text, commit.committed.local),
        strings::holds(
            commit_spans(commit, width)[0].text,
            strings::leading(commit.oid, model::OID_COLUMNS as nat),
        ),
        commit.is_merge ==> commit_spans(commit, width)[3] == tag("[MERGE]"@, Colour::Green, false),
{
    let stats = render::block_text(repo.commits, repo.churn);
    let told = repository_text(repo, width);
    assert(told.skip(told.len() - stats.len()) =~= stats);
    let time = commit.committed.local;
    let id = strings::leading(commit.oid, model::OID_COLUMNS as nat);
    strings::lemma_holds_itself(time);
    strings::lemma_holds_itself(id);
    strings::lemma_holds_together("     "@, time, time);
    strings::lemma_holds_together("     "@ + time, "  "@, time);
    strings::lemma_holds_together("     "@ + time + "  "@, id, time);
    strings::lemma_holds_together("     "@ + time + "  "@ + id, "  "@, time);
    strings::lemma_holds_together("     "@ + time + "  "@, id, id);
    strings::lemma_holds_together("     "@ + time + "  "@ + id, "  "@, id);
}

/// A checkout without a workspace is called closed, by the name of its directory;
/// one with workspaces goes by all of them.
pub proof fn law_a_checkout_goes_by_its_workspaces(checkout: model::CheckoutView, i: int)
    ensures
        checkout.workspaces.len() == 0 ==> strings::begins(place_text(checkout), "closed · "@),
        0 <= i < checkout.workspaces.len() && checkout.workspaces.len() == 1 ==> place_text(
            checkout,
        ) == workspace_text(checkout.workspaces[i]),
        0 <= i < checkout.workspaces.len() ==> strings::ends(
            workspace_text(checkout.workspaces[i]),
            checkout.workspaces[i].label,
        ),
        0 <= i < checkout.workspaces.len() && checkout.workspaces[i].number is Some
            ==> strings::begins(
            workspace_text(checkout.workspaces[i]),
            "#"@ + strings::decimal(checkout.workspaces[i].number->0 as nat),
        ),
{
    if checkout.workspaces.len() == 0 {
        let told = place_text(checkout);
        assert(told.take("closed · "@.len() as int) =~= "closed · "@);
    }
    if 0 <= i < checkout.workspaces.len() {
        let workspace = checkout.workspaces[i];
        let told = workspace_text(workspace);
        assert(told.skip(told.len() - workspace.label.len()) =~= workspace.label);
        if workspace.number is Some {
            let start = "#"@ + strings::decimal(workspace.number->0 as nat);
            assert(told.take(start.len() as int) =~= start);
        }
    }
}

/// The row of a cursor is the first that is a checkout under that cursor.
pub proof fn law_the_row_of_a_cursor_is_its_checkout(rows: Seq<BodyView>, cursor: usize, k: int)
    ensures
        0 <= k < rows.len() && rows[k] is Checkout && rows[k]->cursor == cursor && (forall|j: int|
            0 <= j < k ==> !((#[trigger] rows[j]) is Checkout && rows[j]->cursor == cursor))
            ==> cursor_row(rows, cursor) == k,
        (forall|j: int|
            0 <= j < rows.len() ==> !((#[trigger] rows[j]) is Checkout && rows[j]->cursor
                == cursor)) ==> cursor_row(rows, cursor) == rows.len(),
    decreases rows.len(),
{
    if rows.len() > 0 {
        let rest = rows.drop_first();
        law_the_row_of_a_cursor_is_its_checkout(rest, cursor, k - 1);
        assert(forall|j: int| 0 <= j < rest.len() ==> #[trigger] rest[j] == rows[j + 1]);
        assert(rows[0] == rows.first());
        if forall|j: int|
            0 <= j < k ==> !((#[trigger] rows[j]) is Checkout && rows[j]->cursor == cursor) {
            assert forall|j: int| 0 <= j < k - 1 && j < rest.len() implies !((
            #[trigger] rest[j]) is Checkout && rest[j]->cursor == cursor) by {
                assert(rest[j] == rows[j + 1]);
            }
        }
        if forall|j: int|
            0 <= j < rows.len() ==> !((#[trigger] rows[j]) is Checkout && rows[j]->cursor
                == cursor) {
            assert forall|j: int| 0 <= j < rest.len() implies !((#[trigger] rest[j]) is Checkout
                && rest[j]->cursor == cursor) by {
                assert(rest[j] == rows[j + 1]);
            }
        }
    }
}

/// A message is marked as an error exactly where it is one.
pub proof fn law_a_message_is_marked_for_what_it_is(message: state::Message<Text>)
    ensures
        message_lines(None).len() == 0,
        message_lines(Some(message)).len() == 1,
        message_lines(Some(message))[0].len() == 2,
        message.error ==> message_lines(Some(message))[0][0] == tag(
            "[ERROR]"@,
            Colour::Red,
            false,
        ),
        !message.error ==> message_lines(Some(message))[0][0] == tag(
            "[STATUS]"@,
            Colour::Reset,
            false,
        ),
        message_lines(Some(message))[0][1] == plain(message.text),
{
}

} // verus!
