//! What an event or a result does to the pane.

use vstd::prelude::*;

use crate::config;
use crate::config::{Config, Format, DEFAULT_SINCE};
use crate::model;
use crate::model::{Digest, Text, Window};
use crate::strings;
use crate::tui::state;
use crate::tui::state::{adopt, advances_marker, apply, fail, DigestPane, Key, Message, WindowKind};
use crate::tui::view;
use crate::tui::view::MouseMap;

verus! {

// ---------------------------------------------------------------------------
// Keys
// ---------------------------------------------------------------------------

/// A key of the keyboard.
#[derive(Debug, Clone, Copy, PartialEq, Eq, Structural)]
pub enum Code {
    Up,
    Down,
    Enter,
    Escape,
    Char(char),
    Other,
}

#[derive(Debug, Clone, Copy, PartialEq, Eq, Structural)]
pub enum Motion {
    Press,
    Repeat,
    Release,
}

#[derive(Debug, Clone, Copy, PartialEq, Eq, Structural)]
pub struct KeyPress {
    pub code: Code,
    pub control: bool,
    pub motion: Motion,
}

pub open spec fn key_of(event: KeyPress) -> Option<Key> {
    if event.motion is Release {
        None
    } else {
        Some(
            match event.code {
                Code::Up => Key::Up,
                Code::Down => Key::Down,
                Code::Enter => Key::Enter,
                Code::Escape => Key::Escape,
                Code::Char(c) => if c == 'k' {
                    Key::Up
                } else if c == 'j' {
                    Key::Down
                } else if c == 'q' {
                    Key::Quit
                } else if c == 't' {
                    Key::Today
                } else if c == 'y' {
                    Key::Yesterday
                } else if c == 'l' {
                    Key::SinceLast
                } else if c == 'R' {
                    Key::Refresh
                } else if c == 'c' && event.control {
                    Key::Quit
                } else {
                    Key::Other
                },
                Code::Other => Key::Other,
            },
        )
    }
}

/// What a key means to the pane. Letting go of one means nothing.
pub fn map_key_event(event: KeyPress) -> (out: Option<Key>)
    ensures
        out == key_of(event),
{
    if let Motion::Release = event.motion {
        return None;
    }
    Some(
        match event.code {
            Code::Up => Key::Up,
            Code::Down => Key::Down,
            Code::Enter => Key::Enter,
            Code::Escape => Key::Escape,
            Code::Char(c) => if c == 'k' {
                Key::Up
            } else if c == 'j' {
                Key::Down
            } else if c == 'q' {
                Key::Quit
            } else if c == 't' {
                Key::Today
            } else if c == 'y' {
                Key::Yesterday
            } else if c == 'l' {
                Key::SinceLast
            } else if c == 'R' {
                Key::Refresh
            } else if c == 'c' && event.control {
                Key::Quit
            } else {
                Key::Other
            },
            Code::Other => Key::Other,
        },
    )
}

// ---------------------------------------------------------------------------
// Events
// ---------------------------------------------------------------------------

/// Something that happened at the terminal.
#[derive(Debug, Clone, Copy, PartialEq, Eq, Structural)]
pub enum Event {
    Key(KeyPress),
    Click { column: u16, row: u16 },
    ScrollUp,
    ScrollDown,
    Resize,
    Other,
}

/// The key that an event amounts to.
pub open spec fn event_key(event: Event, mouse: Seq<view::HitRow>) -> Option<Key> {
    match event {
        Event::Key(press) => key_of(press),
        Event::Click { column, row } => match view::hit(mouse, column, row) {
            Some(cursor) => Some(Key::Focus(cursor)),
            None => None,
        },
        Event::ScrollUp => Some(Key::Up),
        Event::ScrollDown => Some(Key::Down),
        Event::Resize | Event::Other => None,
    }
}

/// The pane after an event, and whether it has to be drawn again.
pub open spec fn reacted(
    pane: state::PaneView,
    event: Event,
    mouse: Seq<view::HitRow>,
) -> (state::PaneView, bool) {
    match event_key(event, mouse) {
        Some(key) => (state::applied(pane, key), true),
        None => (pane, event is Resize),
    }
}

/// The pane after an event, and whether it has to be drawn again. `mouse` says
/// which rows were drawn where.
pub fn react(pane: DigestPane, event: Event, mouse: &MouseMap) -> (out: (DigestPane, bool))
    ensures
        (out.0@, out.1) == reacted(pane@, event, mouse@),
{
    let key = match event {
        Event::Key(press) => map_key_event(press),
        Event::Click { column, row } => match mouse.cursor_at(column, row) {
            Some(cursor) => Some(Key::Focus(cursor)),
            None => None,
        },
        Event::ScrollUp => Some(Key::Up),
        Event::ScrollDown => Some(Key::Down),
        Event::Resize | Event::Other => None,
    };
    let resized = match event {
        Event::Resize => true,
        _ => false,
    };
    match key {
        Some(key) => (apply(pane, key), true),
        None => (pane, resized),
    }
}

// ---------------------------------------------------------------------------
// Scans
// ---------------------------------------------------------------------------

/// The configuration with which a window of the pane is scanned. With no start
/// of its own, a look since the last one falls back to today the first time,
/// whatever default the config file has.
pub open spec fn window_settings(
    base: config::ConfigView,
    window: WindowKind,
    fixed_start: Option<i64>,
) -> config::ConfigView {
    let plain = config::ConfigView {
        format: Format::Text,
        record_run: false,
        until: None,
        rollup: None,
        since: DEFAULT_SINCE@,
        since_is_explicit: false,
        since_last: false,
        ..base
    };
    match window {
        WindowKind::Today => plain,
        WindowKind::Yesterday => config::ConfigView {
            since: "yesterday"@,
            since_is_explicit: true,
            ..plain
        },
        WindowKind::SinceLast => match fixed_start {
            Some(epoch) => config::ConfigView {
                since: "@"@ + strings::signed_decimal(epoch as int),
                since_is_explicit: true,
                ..plain
            },
            None => config::ConfigView { since_last: true, ..plain },
        },
    }
}

/// The configuration with which a window of the pane is scanned.
pub fn window_config(base: &Config, window: WindowKind, fixed_start: Option<i64>) -> (out: Config)
    ensures
        out@ == window_settings(base@, window, fixed_start),
{
    let mut config = base.clone();
    config.format = Format::Text;
    config.record_run = false;
    config.until = None;
    config.rollup = None;
    config.since = DEFAULT_SINCE.to_string();
    config.since_is_explicit = false;
    config.since_last = false;
    match window {
        WindowKind::Today => {},
        WindowKind::Yesterday => {
            config.since = "yesterday".to_string();
            config.since_is_explicit = true;
        },
        WindowKind::SinceLast => match fixed_start {
            Some(epoch) => {
                config.since = strings::cat2("@", strings::signed_number(epoch).as_str());
                config.since_is_explicit = true;
            },
            None => {
                config.since_last = true;
            },
        },
    }
    config
}

/// The start that a refresh keeps. The marker has moved on when a look since the
/// last one was entered, so refreshing must pin the window's original start
/// rather than resolve the marker into an almost-empty digest.
pub fn pinned_start(pane: &DigestPane) -> (out: Option<i64>)
    ensures
        out == if pane@.active is SinceLast {
            Some(pane@.digest.window.since.epoch)
        } else {
            None
        },
{
    match pane.active {
        WindowKind::SinceLast => Some(pane.digest.window.since.epoch),
        _ => None,
    }
}

pub open spec fn failed(pane: state::PaneView, message: Text) -> state::PaneView {
    state::PaneView {
        intent: state::Intent::Nothing,
        message: Some(Message { text: message, error: true }),
        ..pane
    }
}

/// The pane after a window was loaded. `recorded` is what came of moving the
/// marker, which counts only for a window that moves it.
pub open spec fn after_load(
    pane: state::PaneView,
    window: WindowKind,
    scanned: Result<model::DigestView, Text>,
    recorded: Result<(), Text>,
) -> state::PaneView {
    match scanned {
        Ok(digest) => {
            let shown = state::adopted(pane, digest, window);
            match recorded {
                Err(error) if window is SinceLast => failed(
                    shown,
                    "could not advance the since-last marker: "@ + error,
                ),
                _ => shown,
            }
        },
        Err(error) => failed(pane, "could not load "@ + window.label_text() + ": "@ + error),
    }
}

/// The pane after it was refreshed: a look since the last one keeps saying where
/// its window came from.
pub open spec fn after_refresh(
    pane: state::PaneView,
    scanned: Result<model::DigestView, Text>,
) -> state::PaneView {
    match scanned {
        Ok(digest) => if pane.active is SinceLast {
            state::adopted(
                pane,
                model::DigestView {
                    window: Window { source: pane.digest.window.source, ..digest.window },
                    ..digest
                },
                pane.active,
            )
        } else {
            state::adopted(pane, digest, pane.active)
        },
        Err(error) => failed(
            pane,
            "could not refresh "@ + pane.active.label_text() + ": "@ + error,
        ),
    }
}

pub open spec fn scan_view(scanned: Result<Digest, String>) -> Result<model::DigestView, Text> {
    match scanned {
        Ok(digest) => Ok(digest@),
        Err(error) => Err(error@),
    }
}

/// Takes the scan of a window that was to be loaded.
pub fn load_window(
    pane: DigestPane,
    window: WindowKind,
    scanned: Result<Digest, String>,
    recorded: Result<(), String>,
) -> (out: DigestPane)
    ensures
        out@ == after_load(
            pane@,
            window,
            scan_view(scanned),
            match recorded {
                Ok(()) => Ok(()),
                Err(error) => Err(error@),
            },
        ),
{
    match scanned {
        Ok(digest) => {
            let pane = adopt(pane, digest, window);
            match recorded {
                Err(error) => if advances_marker(window) {
                    fail(
                        pane,
                        strings::cat2(
                            "could not advance the since-last marker: ",
                            error.as_str(),
                        ),
                    )
                } else {
                    pane
                },
                Ok(()) => pane,
            }
        },
        Err(error) => fail(
            pane,
            strings::cat4("could not load ", window.label(), ": ", error.as_str()),
        ),
    }
}

/// Takes the scan of a refresh.
pub fn refresh(pane: DigestPane, scanned: Result<Digest, String>) -> (out: DigestPane)
    ensures
        out@ == after_refresh(pane@, scan_view(scanned)),
{
    let active = pane.active;
    match scanned {
        Ok(digest) => {
            let mut digest = digest;
            if let WindowKind::SinceLast = active {
                digest.window.source = pane.digest.window.source.clone();
            }
            adopt(pane, digest, active)
        },
        Err(error) => fail(
            pane,
            strings::cat4("could not refresh ", active.label(), ": ", error.as_str()),
        ),
    }
}

// ---------------------------------------------------------------------------
// Laws
// ---------------------------------------------------------------------------

/// A scan that failed never takes the last good digest away.
pub proof fn law_a_failed_scan_keeps_the_digest(
    pane: state::PaneView,
    window: WindowKind,
    error: Text,
    recorded: Result<(), Text>,
)
    ensures
        after_load(pane, window, Err(error), recorded).digest == pane.digest,
        after_load(pane, window, Err(error), recorded).cursor == pane.cursor,
        after_refresh(pane, Err(error)).digest == pane.digest,
        after_refresh(pane, Err(error)).cursor == pane.cursor,
{
}

/// Looking at the pane never moves the marker by way of the configuration, and
/// never over another window than the one asked for.
pub proof fn law_a_scan_records_nothing(
    base: config::ConfigView,
    window: WindowKind,
    fixed_start: Option<i64>,
)
    ensures
        !window_settings(base, window, fixed_start).record_run,
        window_settings(base, window, fixed_start).until is None,
        window_settings(base, window, fixed_start).rollup is None,
        window_settings(base, window, fixed_start).since_last ==> window is SinceLast,
{
}

/// A key counts when it goes down, never when it comes up; what every key is for
/// does not depend on how it went down.
pub proof fn law_a_key_counts_when_it_goes_down(press: KeyPress, again: KeyPress)
    requires
        press.code == again.code,
        press.control == again.control,
    ensures
        key_of(press) is None <==> press.motion is Release,
        !(press.motion is Release) && !(again.motion is Release) ==> key_of(press) == key_of(again),
{
}

/// Each key is for one thing: the arrows and the letters beside them move, and the
/// letters of the help line do what it says.
pub proof fn law_each_key_is_for_one_thing(press: KeyPress)
    requires
        !(press.motion is Release),
    ensures
        key_of(press) == Some(Key::Up) <==> press.code is Up || press.code == Code::Char('k'),
        key_of(press) == Some(Key::Down) <==> press.code is Down || press.code == Code::Char('j'),
        key_of(press) == Some(Key::Enter) <==> press.code is Enter,
        key_of(press) == Some(Key::Escape) <==> press.code is Escape,
        key_of(press) == Some(Key::Quit) <==> press.code == Code::Char('q') || press.code
            == Code::Char('c') && press.control,
        key_of(press) == Some(Key::Today) <==> press.code == Code::Char('t'),
        key_of(press) == Some(Key::Yesterday) <==> press.code == Code::Char('y'),
        key_of(press) == Some(Key::SinceLast) <==> press.code == Code::Char('l'),
        key_of(press) == Some(Key::Refresh) <==> press.code == Code::Char('R'),
{
}

/// A click counts where it hits a row, the wheel moves, and a pane is drawn again
/// wherever something was pressed or its size changed.
pub proof fn law_a_click_goes_to_the_row_it_hits(
    pane: state::PaneView,
    event: Event,
    mouse: Seq<view::HitRow>,
    column: u16,
    row: u16,
)
    ensures
        match view::hit(mouse, column, row) {
            Some(cursor) => reacted(pane, Event::Click { column, row }, mouse) == (
                state::applied(pane, Key::Focus(cursor)),
                true,
            ),
            None => reacted(pane, Event::Click { column, row }, mouse) == (pane, false),
        },
        reacted(pane, Event::ScrollUp, mouse) == (state::applied(pane, Key::Up), true),
        reacted(pane, Event::ScrollDown, mouse) == (state::applied(pane, Key::Down), true),
        reacted(pane, Event::Resize, mouse) == (pane, true),
        reacted(pane, Event::Other, mouse) == (pane, false),
        event_key(event, mouse) is None ==> reacted(pane, event, mouse).0 == pane,
{
}

/// Each window of the pane is scanned for what it is called, whatever the
/// configuration asks for otherwise; all that is not about the window stays.
pub proof fn law_a_window_is_scanned_for_what_it_is_called(
    base: config::ConfigView,
    window: WindowKind,
    fixed_start: Option<i64>,
)
    ensures
        ({
            let scan = window_settings(base, window, fixed_start);
            &&& window is Today ==> scan.since == DEFAULT_SINCE@ && !scan.since_is_explicit
                && !scan.since_last
            &&& window is Yesterday ==> scan.since == "yesterday"@ && scan.since_is_explicit
                && !scan.since_last
            &&& window is SinceLast && fixed_start is Some ==> scan.since == "@"@
                + strings::signed_decimal(fixed_start->0 as int) && scan.since_is_explicit
                && !scan.since_last
            &&& window is SinceLast && fixed_start is None ==> scan.since_last
                && !scan.since_is_explicit
            &&& scan.extra_paths == base.extra_paths && scan.ignore == base.ignore
                && scan.include_quiet == base.include_quiet && scan.include_siblings
                == base.include_siblings && scan.offline == base.offline && scan.git_timeout
                == base.git_timeout && scan.home == base.home && scan.scope == base.scope
                && scan.max_commits == base.max_commits
        }),
{
}

/// A scan that worked is shown in its window; one that failed, and a marker that
/// could not be moved, is an error that tells why.
pub proof fn law_a_scan_is_shown_or_its_failure_told(
    pane: state::PaneView,
    window: WindowKind,
    digest: model::DigestView,
    error: Text,
    recorded: Result<(), Text>,
)
    ensures
        recorded is Ok || !(window is SinceLast) ==> after_load(pane, window, Ok(digest), recorded)
            == state::adopted(pane, digest, window),
        recorded is Err && window is SinceLast ==> ({
            let after = after_load(pane, window, Ok(digest), recorded);
            &&& after.digest == digest
            &&& after.active == window
            &&& after.message is Some
            &&& (after.message->0).error
            &&& strings::ends((after.message->0).text, recorded->Err_0)
        }),
        ({
            let after = after_load(pane, window, Err(error), recorded);
            &&& after.active == pane.active
            &&& after.intent is Nothing
            &&& after.message is Some
            &&& (after.message->0).error
            &&& strings::ends((after.message->0).text, error)
            &&& strings::holds((after.message->0).text, window.label_text())
        }),
        ({
            let after = after_refresh(pane, Err(error));
            &&& after.active == pane.active
            &&& after.message is Some
            &&& (after.message->0).error
            &&& strings::ends((after.message->0).text, error)
        }),
{
    let label = window.label_text();
    strings::lemma_holds_itself(label);
    strings::lemma_holds_together("could not load "@, label, label);
    strings::lemma_holds_together("could not load "@ + label, ": "@, label);
    strings::lemma_holds_together("could not load "@ + label + ": "@, error, label);
    let loaded = "could not load "@ + label + ": "@;
    assert((loaded + error).skip(loaded.len() as int) =~= error);
    let again = "could not refresh "@ + pane.active.label_text() + ": "@;
    assert((again + error).skip(again.len() as int) =~= error);
    if recorded is Err {
        let start = "could not advance the since-last marker: "@;
        assert((start + recorded->Err_0).skip(start.len() as int) =~= recorded->Err_0);
    }
}

/// Scanning again keeps the window that is shown, and says of one since the last
/// view what it said before.
pub proof fn law_scanning_again_keeps_the_window(
    pane: state::PaneView,
    digest: model::DigestView,
)
    ensures
        ({
            let after = after_refresh(pane, Ok(digest));
            &&& after.active == pane.active
            &&& after.digest.repos == digest.repos
            &&& after.digest.notes == digest.notes
            &&& after.digest.window.since == digest.window.since
            &&& after.digest.window.until == digest.window.until
            &&& pane.active is SinceLast ==> after.digest.window.source
                == pane.digest.window.source
            &&& !(pane.active is SinceLast) ==> after.digest == digest
        }),
{
}

} // verus!
