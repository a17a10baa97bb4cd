//! The state machine of the interactive digest pane.

use vstd::prelude::*;

use crate::model;
use crate::model::{CheckoutDigest, Digest, Text};
use crate::paths;
use crate::render;
use crate::strings;

verus! {

/// Reporting windows available without leaving the pane.
#[derive(Debug, Clone, Copy, PartialEq, Eq, Structural)]
pub enum WindowKind {
    Today,
    Yesterday,
    SinceLast,
}

impl WindowKind {
    pub open spec fn label_text(self) -> Text {
        match self {
            WindowKind::Today => "today"@,
            WindowKind::Yesterday => "yesterday and today"@,
            WindowKind::SinceLast => "since last view"@,
        }
    }

    pub fn label(self) -> (out: &'static str)
        ensures
            out@ == self.label_text(),
    {
        match self {
            WindowKind::Today => "today",
            WindowKind::Yesterday => "yesterday and today",
            WindowKind::SinceLast => "since last view",
        }
    }
}

/// Whether showing a window counts as having read a digest, so that the next
/// look since the last one starts where this one ends.
pub fn advances_marker(window: WindowKind) -> (answer: bool)
    ensures
        answer == (window is SinceLast),
{
    match window {
        WindowKind::SinceLast => true,
        _ => false,
    }
}

/// Terminal input translated into policy-free pane events.
#[derive(Debug, Clone, Copy, PartialEq, Eq, Structural)]
pub enum Key {
    Up,
    Down,
    Enter,
    Escape,
    Quit,
    Today,
    Yesterday,
    SinceLast,
    Refresh,
    Focus(usize),
    Other,
}

/// What a state transition asks to be done. Who runs the pane does it and hands
/// back the result; the state machine itself never scans git or writes the
/// marker.
#[derive(Debug, Clone, Copy, PartialEq, Eq, Structural)]
pub enum Intent {
    Nothing,
    Load(WindowKind),
    Refresh,
    Quit,
}

#[derive(Debug, PartialEq, Eq)]
pub struct Message<T = String> {
    pub text: T,
    pub error: bool,
}

impl View for Message {
    type V = Message<Text>;

    open spec fn view(&self) -> Message<Text> {
        Message { text: self.text@, error: self.error }
    }
}

/// Everything needed to render and drive one digest pane.
#[derive(Debug, PartialEq, Eq)]
pub struct DigestPane {
    pub digest: Digest,
    pub active: WindowKind,
    pub cursor: usize,
    /// The paths of the checkouts whose commits are shown.
    pub expanded: Vec<String>,
    pub message: Option<Message>,
    pub intent: Intent,
}

#[verifier::ext_equal]
pub struct PaneView {
    pub digest: model::DigestView,
    pub active: WindowKind,
    pub cursor: usize,
    pub expanded: Seq<Text>,
    pub message: Option<Message<Text>>,
    pub intent: Intent,
}

impl View for DigestPane {
    type V = PaneView;

    open spec fn view(&self) -> PaneView {
        PaneView {
            digest: self.digest@,
            active: self.active,
            cursor: self.cursor,
            expanded: strings::views(self.expanded@),
            message: strings::view_of(self.message),
            intent: self.intent,
        }
    }
}

// ---------------------------------------------------------------------------
// Rows
// ---------------------------------------------------------------------------

/// The checkouts of repositories, one after the other.
pub open spec fn gathered(repos: Seq<model::RepoView>) -> Seq<model::CheckoutView>
    decreases repos.len(),
{
    if repos.len() == 0 {
        Seq::empty()
    } else {
        gathered(repos.drop_last()) + render::checkouts_sorted(repos.last().checkouts)
    }
}

/// Checkouts in exactly the grouping and ordering of the report: repositories
/// first, then their checkouts.
pub open spec fn displayed(digest: model::DigestView) -> Seq<model::CheckoutView> {
    gathered(render::repos_sorted(digest.repos))
}

/// The checkouts in the order in which they are displayed.
pub fn display_checkouts(digest: &Digest) -> (out: Vec<&CheckoutDigest>)
    ensures
        strings::views(out@) == displayed(digest@),
{
    broadcast use strings::group_lists;

    let repos = render::sorted_repos(digest);
    let ghost all = strings::views(repos@);
    let mut out: Vec<&CheckoutDigest> = Vec::new();
    for i in 0..repos.len()
        invariant
            all == strings::views(repos@),
            strings::views(out@) == gathered(all.take(i as int)),
    {
        broadcast use strings::group_lists;

        assert(all.take(i + 1).drop_last() =~= all.take(i as int));
        assert(all[i as int] == repos@[i as int]@);
        let mut checkouts = render::sorted_checkouts(repos[i]);
        out.append(&mut checkouts);
    }
    assert(all.take(all.len() as int) =~= all);
    out
}

impl PaneView {
    pub open spec fn rows(self) -> nat {
        displayed(self.digest).len()
    }

    /// The path of the checkout under the cursor.
    pub open spec fn selected(self) -> Option<Text> {
        if self.cursor < self.rows() {
            Some(displayed(self.digest)[self.cursor as int].report.path)
        } else {
            None
        }
    }
}

impl DigestPane {
    pub fn new(digest: Digest) -> (out: DigestPane)
        ensures
            out@ == (PaneView {
                digest: digest@,
                active: WindowKind::Today,
                cursor: 0,
                expanded: Seq::empty(),
                message: None,
                intent: Intent::Nothing,
            }),
    {
        let expanded: Vec<String> = Vec::new();
        assert(strings::views(expanded@) =~= Seq::empty());
        DigestPane {
            digest,
            active: WindowKind::Today,
            cursor: 0,
            expanded,
            message: None,
            intent: Intent::Nothing,
        }
    }

    pub fn row_count(&self) -> (n: usize)
        ensures
            n == self@.rows(),
    {
        let rows = display_checkouts(&self.digest);
        assert(strings::views(rows@).len() == rows@.len());
        rows.len()
    }

    pub fn checkout(&self, index: usize) -> (out: Option<&CheckoutDigest>)
        ensures
            strings::view_of(out) == if index < self@.rows() {
                Some(displayed(self@.digest)[index as int])
            } else {
                None
            },
    {
        let rows = display_checkouts(&self.digest);
        assert(strings::views(rows@).len() == rows@.len());
        if index < rows.len() {
            assert(strings::views(rows@)[index as int] == rows@[index as int]@);
            Some(rows[index])
        } else {
            None
        }
    }

    pub fn selected_path(&self) -> (out: Option<&str>)
        ensures
            strings::view_of(out) == self@.selected(),
    {
        match self.checkout(self.cursor) {
            Some(checkout) => Some(checkout.report.path.as_str()),
            None => None,
        }
    }
}

// ---------------------------------------------------------------------------
// Input
// ---------------------------------------------------------------------------

/// The cursor on the nearest row there is.
pub open spec fn on_a_row(cursor: usize, rows: nat) -> usize {
    if rows == 0 {
        0
    } else if cursor < rows {
        cursor
    } else {
        (rows - 1) as usize
    }
}

/// A list without a place.
pub open spec fn without_place(list: Seq<Text>, place: Text) -> Seq<Text> {
    list.filter(|other: Text| !paths::same_place(other, place))
}

fn remove_place(list: &Vec<String>, place: &str) -> (out: Vec<String>)
    ensures
        strings::views(out@) == without_place(strings::views(list@), place@),
{
    broadcast use strings::group_lists;

    let ghost all = strings::views(list@);
    let mut out: Vec<String> = Vec::new();
    proof {
        reveal(Seq::filter);
    }
    for i in 0..list.len()
        invariant
            all == strings::views(list@),
            strings::views(out@) == without_place(all.take(i as int), place@),
    {
        broadcast use strings::group_lists;

        proof {
            reveal(Seq::filter);
        }
        assert(all.take(i + 1).drop_last() =~= all.take(i as int));
        assert(all[i as int] == list@[i as int]@);
        if !paths::is_same_place(list[i].as_str(), place) {
            out.push(list[i].clone());
        }
    }
    assert(all.take(all.len() as int) =~= all);
    out
}

/// The pane with the checkout under the cursor expanded, or collapsed where it
/// was expanded.
pub open spec fn toggled(pane: PaneView) -> PaneView {
    match pane.selected() {
        Some(path) => PaneView {
            expanded: if paths::has_place(pane.expanded, path) {
                without_place(pane.expanded, path)
            } else {
                pane.expanded.push(path)
            },
            ..pane
        },
        None => pane,
    }
}

/// The pane after leaving: the checkout under the cursor is collapsed; where
/// there is nothing to collapse, the pane is to be closed.
pub open spec fn escaped(pane: PaneView) -> PaneView {
    match pane.selected() {
        Some(path) => if paths::has_place(pane.expanded, path) {
            PaneView { expanded: without_place(pane.expanded, path), ..pane }
        } else {
            PaneView { intent: Intent::Quit, ..pane }
        },
        None => PaneView { intent: Intent::Quit, ..pane },
    }
}

/// The pane after asking for a window, which is loaded unless it is shown.
pub open spec fn switched(pane: PaneView, window: WindowKind) -> PaneView {
    if pane.active == window {
        pane
    } else {
        PaneView { intent: Intent::Load(window), ..pane }
    }
}

/// The pane after one input event.
pub open spec fn applied(pane: PaneView, key: Key) -> PaneView {
    let rows = pane.rows();
    let pane = PaneView { cursor: on_a_row(pane.cursor, rows), ..pane };
    match key {
        Key::Up => PaneView {
            cursor: if pane.cursor > 0 {
                (pane.cursor - 1) as usize
            } else {
                0
            },
            ..pane
        },
        Key::Down => PaneView {
            cursor: if pane.cursor + 1 < rows {
                (pane.cursor + 1) as usize
            } else {
                pane.cursor
            },
            ..pane
        },
        Key::Focus(index) => PaneView {
            cursor: if index < rows {
                index
            } else {
                pane.cursor
            },
            ..pane
        },
        Key::Enter => toggled(pane),
        Key::Escape => escaped(pane),
        Key::Quit => PaneView { intent: Intent::Quit, ..pane },
        Key::Today => switched(pane, WindowKind::Today),
        Key::Yesterday => switched(pane, WindowKind::Yesterday),
        Key::SinceLast => switched(pane, WindowKind::SinceLast),
        Key::Refresh => PaneView { intent: Intent::Refresh, ..pane },
        Key::Other => pane,
    }
}

fn path_under_cursor(pane: &DigestPane) -> (out: Option<String>)
    ensures
        strings::view_of(out) == pane@.selected(),
{
    match pane.selected_path() {
        Some(path) => Some(path.to_string()),
        None => None,
    }
}

fn toggle_current(pane: DigestPane) -> (out: DigestPane)
    ensures
        out@ == toggled(pane@),
{
    broadcast use strings::group_lists;

    let mut pane = pane;
    if let Some(path) = path_under_cursor(&pane) {
        if paths::holds_place(&pane.expanded, path.as_str()) {
            pane.expanded = remove_place(&pane.expanded, path.as_str());
        } else {
            pane.expanded.push(path);
        }
    }
    pane
}

fn leave(pane: DigestPane) -> (out: DigestPane)
    ensures
        out@ == escaped(pane@),
{
    let mut pane = pane;
    if let Some(path) = path_under_cursor(&pane) {
        if paths::holds_place(&pane.expanded, path.as_str()) {
            pane.expanded = remove_place(&pane.expanded, path.as_str());
            return pane;
        }
    }
    pane.intent = Intent::Quit;
    pane
}

fn switch(pane: DigestPane, window: WindowKind) -> (out: DigestPane)
    ensures
        out@ == switched(pane@, window),
{
    let mut pane = pane;
    if pane.active != window {
        pane.intent = Intent::Load(window);
    }
    pane
}

/// Applies one input event.
pub fn apply(pane: DigestPane, key: Key) -> (out: DigestPane)
    ensures
        out@ == applied(pane@, key),
{
    let mut pane = pane;
    let rows = pane.row_count();
    if rows == 0 {
        pane.cursor = 0;
    } else if pane.cursor >= rows {
        pane.cursor = rows - 1;
    }
    match key {
        Key::Up => {
            if pane.cursor > 0 {
                pane.cursor = pane.cursor - 1;
            }
            pane
        },
        Key::Down => {
            if rows > 0 && pane.cursor < rows - 1 {
                pane.cursor = pane.cursor + 1;
            }
            pane
        },
        Key::Focus(index) => {
            if index < rows {
                pane.cursor = index;
            }
            pane
        },
        Key::Enter => toggle_current(pane),
        Key::Escape => leave(pane),
        Key::Quit => {
            pane.intent = Intent::Quit;
            pane
        },
        Key::Today => switch(pane, WindowKind::Today),
        Key::Yesterday => switch(pane, WindowKind::Yesterday),
        Key::SinceLast => switch(pane, WindowKind::SinceLast),
        Key::Refresh => {
            pane.intent = Intent::Refresh;
            pane
        },
        Key::Other => pane,
    }
}

// ---------------------------------------------------------------------------
// Results
// ---------------------------------------------------------------------------

/// Whether one of the checkouts has a path.
pub open spec fn shows(checkouts: Seq<model::CheckoutView>, path: Text) -> bool {
    exists|i: int|
        0 <= i < checkouts.len() && paths::same_place((#[trigger] checkouts[i]).report.path, path)
}

/// The first row with a path; the first row of all where there is none.
pub open spec fn row_of(checkouts: Seq<model::CheckoutView>, path: Text) -> nat {
    if shows(checkouts, path) {
        first_row(checkouts, path)
    } else {
        0
    }
}

pub open spec fn first_row(checkouts: Seq<model::CheckoutView>, path: Text) -> nat
    decreases checkouts.len(),
{
    if checkouts.len() == 0 || paths::same_place(checkouts[0].report.path, path) {
        0
    } else {
        1 + first_row(checkouts.drop_first(), path)
    }
}

/// The pane with a new digest: the cursor stays on its checkout and the expanded
/// ones stay expanded, as far as they are still there.
pub open spec fn adopted(
    pane: PaneView,
    digest: model::DigestView,
    active: WindowKind,
) -> PaneView {
    let rows = displayed(digest);
    PaneView {
        digest,
        active,
        cursor: match pane.selected() {
            Some(path) => row_of(rows, path) as usize,
            None => 0,
        },
        expanded: pane.expanded.filter(|path: Text| shows(rows, path)),
        message: None,
        intent: Intent::Nothing,
    }
}

fn find_row(rows: &Vec<&CheckoutDigest>, path: &str) -> (out: Option<usize>)
    ensures
        match out {
            Some(i) => shows(strings::views(rows@), path@) && i == first_row(
                strings::views(rows@),
                path@,
            ) && i < rows@.len(),
            None => !shows(strings::views(rows@), path@),
        },
{
    let ghost all = strings::views(rows@);
    assert(all.skip(0) =~= all);
    for i in 0..rows.len()
        invariant
            all == strings::views(rows@),
            first_row(all, path@) == i + first_row(all.skip(i as int), path@),
            forall|k: int|
                0 <= k < i ==> !paths::same_place((#[trigger] all[k]).report.path, path@),
    {
        let ghost rest = all.skip(i as int);
        assert(rest[0] == rows@[i as int]@);
        assert(all[i as int] == rows@[i as int]@);
        assert(rest.drop_first() =~= all.skip(i + 1));
        if paths::is_same_place(rows[i].report.path.as_str(), path) {
            return Some(i);
        }
    }
    None
}

fn still_shown(list: &Vec<String>, rows: &Vec<&CheckoutDigest>) -> (out: Vec<String>)
    ensures
        strings::views(out@) == strings::views(list@).filter(
            |path: Text| shows(strings::views(rows@), path),
        ),
{
    broadcast use strings::group_lists;

    let ghost all = strings::views(list@);
    let ghost kept = |path: Text| shows(strings::views(rows@), path);
    let mut out: Vec<String> = Vec::new();
    proof {
        reveal(Seq::filter);
    }
    for i in 0..list.len()
        invariant
            all == strings::views(list@),
            kept == (|path: Text| shows(strings::views(rows@), path)),
            strings::views(out@) == all.take(i as int).filter(kept),
    {
        broadcast use strings::group_lists;

        proof {
            reveal(Seq::filter);
        }
        assert(all.take(i + 1).drop_last() =~= all.take(i as int));
        assert(all[i as int] == list@[i as int]@);
        if find_row(rows, list[i].as_str()).is_some() {
            out.push(list[i].clone());
        }
    }
    assert(all.take(all.len() as int) =~= all);
    out
}

/// Adopts a successful scan, keeping cursor and expansion by checkout path.
pub fn adopt(pane: DigestPane, digest: Digest, active: WindowKind) -> (out: DigestPane)
    ensures
        out@ == adopted(pane@, digest@, active),
{
    let selected = path_under_cursor(&pane);
    let rows = display_checkouts(&digest);
    let expanded = still_shown(&pane.expanded, &rows);
    let cursor: usize = match selected {
        Some(path) => match find_row(&rows, path.as_str()) {
            Some(row) => row,
            None => 0,
        },
        None => 0,
    };
    DigestPane { digest, active, cursor, expanded, message: None, intent: Intent::Nothing }
}

/// Keeps the last good digest visible when a scan or a marker write fails.
pub fn fail(pane: DigestPane, message: String) -> (out: DigestPane)
    ensures
        out@ == (PaneView {
            intent: Intent::Nothing,
            message: Some(Message { text: message@, error: true }),
            ..pane@
        }),
{
    let mut pane = pane;
    pane.intent = Intent::Nothing;
    pane.message = Some(Message { text: message, error: true });
    pane
}

// ---------------------------------------------------------------------------
// Laws
// ---------------------------------------------------------------------------

/// Whatever is pressed, the cursor is on a row, as long as there is one, and the
/// digest stays what it is.
pub proof fn law_the_cursor_stays_on_a_row(pane: PaneView, key: Key)
    ensures
        applied(pane, key).digest == pane.digest,
        applied(pane, key).active == pane.active,
        pane.rows() > 0 ==> applied(pane, key).cursor < pane.rows(),
        pane.rows() == 0 ==> applied(pane, key).cursor == 0,
{
}

/// A key asks for I/O only by its intent, and only these keys ever do.
pub proof fn law_moving_asks_for_nothing(pane: PaneView, key: Key)
    requires
        pane.intent is Nothing,
        key is Up || key is Down || key is Enter || key is Focus || key is Other,
    ensures
        applied(pane, key).intent is Nothing,
{
}

/// Collapsing undoes expanding.
pub proof fn law_expanding_twice_changes_nothing(pane: PaneView)
    requires
        pane.cursor < pane.rows(),
        !paths::has_place(pane.expanded, pane.selected()->0),
    ensures
        applied(applied(pane, Key::Enter), Key::Enter) == pane,
        applied(applied(pane, Key::Enter), Key::Escape) == pane,
{
    reveal(Seq::filter);
    let path = pane.selected()->0;
    let open = applied(pane, Key::Enter);
    paths::law_same_place_is_an_equivalence(path, path, path);
    assert(open.expanded == pane.expanded.push(path));
    assert(open.expanded[pane.expanded.len() as int] == path);
    assert(paths::has_place(open.expanded, path));
    assert(open.expanded.drop_last() =~= pane.expanded);
    lemma_nothing_to_remove(pane.expanded, path);
    assert(without_place(open.expanded, path) =~= pane.expanded);
    assert(applied(open, Key::Enter) =~= pane);
    assert(applied(open, Key::Escape) =~= pane);
}

proof fn lemma_removed(list: Seq<Text>, place: Text)
    ensures
        forall|other: Text| #[trigger]
            paths::has_place(without_place(list, place), other) == (paths::has_place(list, other)
                && !paths::same_place(place, other)),
    decreases list.len(),
{
    reveal(Seq::filter);
    let left = without_place(list, place);
    if list.len() > 0 {
        let rest = list.drop_last();
        let last = list.last();
        let before = without_place(rest, place);
        lemma_removed(rest, place);
        assert forall|other: Text| #[trigger] paths::has_place(left, other) == (paths::has_place(
            list,
            other,
        ) && !paths::same_place(place, other)) by {
            paths::law_same_place_is_an_equivalence(last, place, other);
            paths::law_same_place_is_an_equivalence(place, last, other);
            paths::law_same_place_is_an_equivalence(last, other, place);
            paths::law_same_place_is_an_equivalence(place, other, last);
            assert(paths::has_place(list, other) == (paths::has_place(rest, other)
                || paths::same_place(last, other))) by {
                lemma_one_more_place(rest, last, other);
                assert(rest.push(last) =~= list);
            }
            if !paths::same_place(last, place) {
                lemma_one_more_place(before, last, other);
                assert(left =~= before.push(last));
            }
        }
    }
}

proof fn lemma_one_more_place(list: Seq<Text>, place: Text, other: Text)
    ensures
        paths::has_place(list.push(place), other) == (paths::has_place(list, other)
            || paths::same_place(place, other)),
{
    let more = list.push(place);
    if paths::has_place(list, other) {
        let i = choose|i: int| 0 <= i < list.len() && paths::same_place(#[trigger] list[i], other);
        assert(more[i] == list[i]);
    }
    if paths::same_place(place, other) {
        assert(more[list.len() as int] == place);
    }
    if paths::has_place(more, other) {
        let i = choose|i: int| 0 <= i < more.len() && paths::same_place(#[trigger] more[i], other);
        if i < list.len() {
            assert(list[i] == more[i]);
        }
    }
}

/// Expanding undoes collapsing: the same places are expanded again, and nothing
/// else has changed.
pub proof fn law_collapsing_twice_expands_the_same_places(pane: PaneView)
    requires
        pane.cursor < pane.rows(),
        paths::has_place(pane.expanded, pane.selected()->0),
    ensures
        ({
            let again = applied(applied(pane, Key::Enter), Key::Enter);
            &&& again == (PaneView { expanded: again.expanded, ..pane })
            &&& forall|place: Text| #[trigger]
                paths::has_place(again.expanded, place) == paths::has_place(pane.expanded, place)
        }),
{
    let path = pane.selected()->0;
    let shut = applied(pane, Key::Enter);
    let again = applied(shut, Key::Enter);
    paths::law_same_place_is_an_equivalence(path, path, path);
    lemma_removed(pane.expanded, path);
    assert(shut.expanded == without_place(pane.expanded, path));
    assert(!paths::has_place(shut.expanded, path));
    assert(again.expanded == shut.expanded.push(path));
    assert forall|place: Text| #[trigger] paths::has_place(again.expanded, place)
        == paths::has_place(pane.expanded, place) by {
        lemma_one_more_place(shut.expanded, path, place);
        assert(paths::has_place(shut.expanded, place) == (paths::has_place(pane.expanded, place)
            && !paths::same_place(path, place)));
        if paths::same_place(path, place) {
            let i = choose|i: int|
                0 <= i < pane.expanded.len() && paths::same_place(
                    #[trigger] pane.expanded[i],
                    path,
                );
            paths::law_same_place_is_an_equivalence(pane.expanded[i], path, place);
        }
    }
}

proof fn lemma_nothing_to_remove(list: Seq<Text>, place: Text)
    requires
        !paths::has_place(list, place),
    ensures
        without_place(list, place) == list,
    decreases list.len(),
{
    reveal(Seq::filter);
    if list.len() > 0 {
        let rest = list.drop_last();
        assert forall|i: int| 0 <= i < rest.len() implies !paths::same_place(
            #[trigger] rest[i],
            place,
        ) by {
            assert(rest[i] == list[i]);
        }
        lemma_nothing_to_remove(rest, place);
        assert(!paths::same_place(list[list.len() - 1], place));
        assert(rest.push(list.last()) =~= list);
    }
}

proof fn lemma_first_row(checkouts: Seq<model::CheckoutView>, path: Text)
    requires
        shows(checkouts, path),
    ensures
        first_row(checkouts, path) < checkouts.len(),
        paths::same_place(checkouts[first_row(checkouts, path) as int].report.path, path),
    decreases checkouts.len(),
{
    let i = choose|i: int|
        0 <= i < checkouts.len() && paths::same_place(
            (#[trigger] checkouts[i]).report.path,
            path,
        );
    if !paths::same_place(checkouts[0].report.path, path) {
        let rest = checkouts.drop_first();
        assert(rest[i - 1] == checkouts[i]);
        assert(shows(rest, path));
        lemma_first_row(rest, path);
        assert(rest[first_row(rest, path) as int] == checkouts[first_row(rest, path) as int + 1]);
    }
}

/// A new scan does not move the reader: where the checkout under the cursor is
/// still there, the cursor is still on it.
pub proof fn law_a_scan_keeps_the_cursor_on_its_checkout(
    pane: PaneView,
    digest: model::DigestView,
    active: WindowKind,
)
    requires
        pane.selected() is Some,
        shows(displayed(digest), pane.selected()->0),
        displayed(digest).len() <= usize::MAX,
    ensures
        ({
            let after = adopted(pane, digest, active);
            after.selected() is Some && paths::same_place(
                after.selected()->0,
                pane.selected()->0,
            )
        }),
{
    lemma_first_row(displayed(digest), pane.selected()->0);
}

/// Moving takes the cursor one row up or down, or to the row that was pointed at,
/// and stops at the ends. Nothing else changes.
pub proof fn law_moving_moves_by_one_row(pane: PaneView, index: usize)
    requires
        pane.cursor < pane.rows(),
        pane.rows() <= usize::MAX,
    ensures
        pane.cursor > 0 ==> applied(pane, Key::Up).cursor == pane.cursor - 1,
        pane.cursor == 0 ==> applied(pane, Key::Up).cursor == 0,
        pane.cursor + 1 < pane.rows() ==> applied(pane, Key::Down).cursor == pane.cursor + 1,
        pane.cursor + 1 == pane.rows() ==> applied(pane, Key::Down).cursor == pane.cursor,
        index < pane.rows() ==> applied(pane, Key::Focus(index)).cursor == index,
        index >= pane.rows() ==> applied(pane, Key::Focus(index)).cursor == pane.cursor,
        pane.cursor > 0 ==> applied(applied(pane, Key::Up), Key::Down) == pane,
        pane.cursor + 1 < pane.rows() ==> applied(applied(pane, Key::Down), Key::Up) == pane,
        applied(pane, Key::Other) == pane,
        (PaneView { cursor: pane.cursor, ..applied(pane, Key::Up) }) == pane,
        (PaneView { cursor: pane.cursor, ..applied(pane, Key::Down) }) == pane,
        (PaneView { cursor: pane.cursor, ..applied(pane, Key::Focus(index)) }) == pane,
{
}

/// A key for a window asks for it unless it is there already; the keys for leaving
/// and for scanning again ask for that; Escape leaves only where there is nothing
/// to collapse.
pub proof fn law_a_key_asks_for_what_it_is_for(pane: PaneView)
    requires
        pane.cursor < pane.rows(),
        pane.intent is Nothing,
    ensures
        applied(pane, Key::Quit).intent is Quit,
        applied(pane, Key::Refresh).intent is Refresh,
        pane.active is Today ==> applied(pane, Key::Today) == pane,
        !(pane.active is Today) ==> applied(pane, Key::Today).intent == Intent::Load(
            WindowKind::Today,
        ),
        pane.active is Yesterday ==> applied(pane, Key::Yesterday) == pane,
        !(pane.active is Yesterday) ==> applied(pane, Key::Yesterday).intent == Intent::Load(
            WindowKind::Yesterday,
        ),
        pane.active is SinceLast ==> applied(pane, Key::SinceLast) == pane,
        !(pane.active is SinceLast) ==> applied(pane, Key::SinceLast).intent == Intent::Load(
            WindowKind::SinceLast,
        ),
        applied(pane, Key::Escape).intent is Quit <==> !paths::has_place(
            pane.expanded,
            pane.selected()->0,
        ),
        applied(pane, Key::Quit).expanded == pane.expanded,
        applied(pane, Key::Refresh).expanded == pane.expanded,
{
}

/// To expand or collapse is about the checkout under the cursor alone.
pub proof fn law_expanding_is_about_one_checkout(pane: PaneView, place: Text)
    requires
        pane.cursor < pane.rows(),
    ensures
        ({
            let here = displayed(pane.digest)[pane.cursor as int].report.path;
            let after = applied(pane, Key::Enter);
            &&& pane.selected() == Some(here)
            &&& paths::has_place(after.expanded, here) <==> !paths::has_place(pane.expanded, here)
            &&& !paths::same_place(place, here) ==> (paths::has_place(after.expanded, place)
                <==> paths::has_place(pane.expanded, place))
        }),
{
    let here = pane.selected()->0;
    let pane = PaneView { cursor: on_a_row(pane.cursor, pane.rows()), ..pane };
    if paths::has_place(pane.expanded, here) {
        lemma_only_that_place_goes(pane.expanded, here, place);
        lemma_only_that_place_goes(pane.expanded, here, here);
    } else {
        lemma_one_more_place(pane.expanded, here, place);
        lemma_one_more_place(pane.expanded, here, here);
    }
}

proof fn lemma_only_that_place_goes(list: Seq<Text>, place: Text, other: Text)
    ensures
        paths::has_place(without_place(list, place), other) <==> paths::has_place(list, other)
            && !paths::same_place(other, place),
    decreases list.len(),
{
    reveal(Seq::filter);
    if list.len() > 0 {
        let rest = list.drop_last();
        let last = list.last();
        let (before, after) = (without_place(rest, place), without_place(list, place));
        lemma_only_that_place_goes(rest, place, other);
        assert(list[list.len() - 1] == last);
        if paths::has_place(rest, other) {
            let i = choose|i: int|
                0 <= i < rest.len() && paths::same_place(#[trigger] rest[i], other);
            assert(list[i] == rest[i]);
        }
        if paths::has_place(before, other) {
            let i = choose|i: int|
                0 <= i < before.len() && paths::same_place(#[trigger] before[i], other);
            assert(after[i] == before[i]);
        }
        if paths::has_place(list, other) && !paths::has_place(rest, other) {
            let i = choose|i: int|
                0 <= i < list.len() && paths::same_place(#[trigger] list[i], other);
            if i < rest.len() {
                assert(rest[i] == list[i]);
            }
            if !paths::same_place(other, place) {
                assert(after.last() == last);
                assert(after[after.len() - 1] == last);
            }
        }
        if paths::has_place(after, other) && !paths::has_place(before, other) {
            let i = choose|i: int|
                0 <= i < after.len() && paths::same_place(#[trigger] after[i], other);
            if i < before.len() {
                assert(before[i] == after[i]);
            }
            assert(after[i] == last);
            assert(list[list.len() - 1] == last);
        }
    }
}

/// A new scan is shown with its own digest and window, without what was said
/// before it; what is still there stays expanded, and nothing else is.
pub proof fn law_a_scan_takes_over(
    pane: PaneView,
    digest: model::DigestView,
    active: WindowKind,
    place: Text,
)
    ensures
        ({
            let after = adopted(pane, digest, active);
            &&& after.digest == digest
            &&& after.active == active
            &&& after.message is None
            &&& after.intent is Nothing
            &&& after.expanded.contains(place) <==> pane.expanded.contains(place) && shows(
                displayed(digest),
                place,
            )
            &&& pane.selected() is None || !shows(displayed(digest), pane.selected()->0)
                ==> after.cursor == 0
        }),
{
    broadcast use vstd::seq_lib::group_filter_ensures;

    let kept = |path: Text| shows(displayed(digest), path);
    let after = adopted(pane, digest, active);
    assert(after.expanded == pane.expanded.filter(kept));
    if after.expanded.contains(place) {
        pane.expanded.lemma_filter_contains_rev(kept, place);
        assert(kept(place));
    }
    if pane.expanded.contains(place) && kept(place) {
        lemma_kept(pane.expanded, kept, place);
    }
}

proof fn lemma_kept(list: Seq<Text>, kept: spec_fn(Text) -> bool, place: Text)
    requires
        list.contains(place),
        kept(place),
    ensures
        list.filter(kept).contains(place),
    decreases list.len(),
{
    reveal(Seq::filter);
    let rest = list.drop_last();
    let i = choose|i: int| 0 <= i < list.len() && list[i] == place;
    if i < rest.len() {
        assert(rest[i] == place);
        lemma_kept(rest, kept, place);
        let k = choose|k: int| 0 <= k < rest.filter(kept).len() && rest.filter(kept)[k] == place;
        assert(list.filter(kept)[k] == place);
    } else {
        assert(list.filter(kept).last() == place);
    }
}

/// There is one row for each checkout of each repository, in the order in which
/// repositories and checkouts are shown.
pub proof fn law_every_checkout_has_a_row(repos: Seq<model::RepoView>, repo: model::RepoView)
    ensures
        gathered(Seq::empty()) == Seq::<model::CheckoutView>::empty(),
        gathered(repos.push(repo)) == gathered(repos) + render::checkouts_sorted(repo.checkouts),
{
    assert(repos.push(repo).drop_last() =~= repos);
}

} // verus!
