use standup::config::{Config, Format, DEFAULT_SINCE};
use standup::model::{
    CheckoutDigest, CheckoutReport, Churn, Commit, Digest, Dirty, Head, Landed, Period, RepoDigest,
    RepoKey, Stamp, Tracking, Unpushed, Window, WindowSource, SCHEMA_VERSION,
};
use standup::tui::drive::{
    load_window, map_key_event, pinned_start, react, refresh, window_config, Code, Event, KeyPress,
    Motion,
};
use standup::tui::state::{
    adopt, advances_marker, apply, fail, DigestPane, Intent, Key, WindowKind,
};
use standup::tui::view::{
    body_lines, commit_line, detail_lines, first_visible, header_lines, help, mouse_map,
    region_heights, repository_line, status_specs, BodyLine, Colour, Line,
};

fn stamp(epoch: i64) -> Stamp {
    Stamp {
        epoch,
        local: "2026-08-15 09:04".to_string(),
        zone: "UTC +0000".to_string(),
        offset_seconds: Some(0),
    }
}

fn checkout(path: &str, subjects: &[&str]) -> CheckoutDigest {
    CheckoutDigest {
        report: CheckoutReport {
            path: path.to_string(),
            repo_key: RepoKey("/repo/.git".to_string()),
            repo_root: "/repo".to_string(),
            is_linked_worktree: false,
            head: Head::Branch {
                name: "feat".to_string(),
                oid: "aaaa".to_string(),
            },
            commits: subjects
                .iter()
                .map(|subject| Commit {
                    oid: "0123456789abcdef".to_string(),
                    author: "Ada".to_string(),
                    committed: stamp(7),
                    subject: subject.to_string(),
                    is_merge: false,
                    insertions: 1,
                    deletions: 0,
                    files: Vec::new(),
                })
                .collect(),
            churn: Churn::default(),
            dirty: Dirty::default(),
            tracking: Tracking::NoUpstream,
            landed: Landed::NotMerged {
                into: "main".to_string(),
            },
            unpushed: Unpushed::Commits { count: 0 },
            problems: Vec::new(),
        },
        workspaces: Vec::new(),
        agents: Vec::new(),
    }
}

fn digest(paths: &[&str]) -> Digest {
    Digest {
        schema: SCHEMA_VERSION,
        generated_at: stamp(9),
        window: Window {
            since: stamp(1_786_752_000),
            until: None,
            source: WindowSource::Default,
        },
        repos: vec![RepoDigest {
            repo_key: RepoKey("/repo/.git".to_string()),
            name: "atlas".to_string(),
            repo_root: "/repo".to_string(),
            checkouts: paths.iter().map(|path| checkout(path, &["One", "Two"])).collect(),
            commits: 2,
            churn: Churn::default(),
            active_days: 1,
        }],
        notes: Vec::new(),
    }
}

fn pane(paths: &[&str]) -> DigestPane {
    DigestPane::new(digest(paths))
}

#[test]
fn the_cursor_stays_on_a_row() {
    let mut pane = pane(&["/a", "/b"]);
    assert_eq!(pane.row_count(), 2);
    for (key, cursor) in [
        (Key::Up, 0),
        (Key::Down, 1),
        (Key::Down, 1),
        (Key::Focus(0), 0),
        (Key::Focus(9), 0),
        (Key::Other, 0),
    ] {
        pane = apply(pane, key);
        assert_eq!(pane.cursor, cursor, "{key:?}");
        assert_eq!(pane.intent, Intent::Nothing);
    }
    assert_eq!(pane.selected_path(), Some("/a"));
}

#[test]
fn keys_ask_for_windows() {
    for (key, intent) in [
        (Key::Yesterday, Intent::Load(WindowKind::Yesterday)),
        (Key::SinceLast, Intent::Load(WindowKind::SinceLast)),
        (Key::Refresh, Intent::Refresh),
        (Key::Quit, Intent::Quit),
    ] {
        assert_eq!(apply(pane(&["/a"]), key).intent, intent, "{key:?}");
    }
}

#[test]
fn expanding_twice_changes_nothing() {
    let once = apply(pane(&["/a", "/b"]), Key::Enter);
    assert_eq!(once.expanded, ["/a"]);
    assert_eq!(body_lines(&once).len(), 5);
    let twice = apply(once, Key::Enter);
    assert_eq!(twice, pane(&["/a", "/b"]));
    assert_eq!(body_lines(&twice).len(), 3);

    // And the other way round: the same places are expanded again.
    let both = apply(apply(apply(pane(&["/a", "/b"]), Key::Enter), Key::Down), Key::Enter);
    assert_eq!(both.expanded, ["/a", "/b"]);
    let on_a = apply(both, Key::Up);
    let again = apply(apply(on_a, Key::Enter), Key::Enter);
    let mut places = again.expanded.clone();
    places.sort();
    assert_eq!(places, ["/a", "/b"]);
    assert_eq!(again.cursor, 0);
}

#[test]
fn a_scan_keeps_the_cursor_on_its_checkout() {
    let on_b = apply(pane(&["/a", "/b"]), Key::Down);
    let pane = adopt(on_b, digest(&["/b", "/c", "/d"]), WindowKind::Today);
    assert_eq!(pane.selected_path(), Some("/b"));
    let pane = adopt(pane, digest(&["/x"]), WindowKind::Today);
    assert_eq!(pane.cursor, 0);
    let pane = adopt(pane, digest(&[]), WindowKind::Today);
    assert_eq!(pane.selected_path(), None);
}

#[test]
fn a_failed_scan_keeps_the_digest() {
    let told = |pane: &DigestPane| pane.message.as_ref().unwrap().text.clone();
    let before = pane(&["/a"]);
    let after = refresh(before, Err("git is gone".to_string()));
    assert_eq!(after.digest, digest(&["/a"]));
    assert_eq!(told(&after), "could not refresh today: git is gone");
    assert!(after.message.as_ref().unwrap().error);
    let after = load_window(
        after,
        WindowKind::Yesterday,
        Err("no".to_string()),
        Ok(()),
    );
    assert_eq!(told(&after), "could not load yesterday and today: no");
    assert_eq!(after.active, WindowKind::Today);
    let after = load_window(
        after,
        WindowKind::SinceLast,
        Ok(digest(&["/b"])),
        Err("read-only".to_string()),
    );
    assert_eq!(
        told(&after),
        "could not advance the since-last marker: read-only"
    );
    assert_eq!(after.active, WindowKind::SinceLast);
    let after = fail(after, "other".to_string());
    assert_eq!(told(&after), "other");
}

/// The marker has moved on, so a refresh pins the window's original start.
#[test]
fn a_refresh_pins_the_start() {
    let mut scanned = digest(&["/a"]);
    scanned.window.source = WindowSource::SinceLastFirstRun;
    let pane = load_window(pane(&["/a"]), WindowKind::SinceLast, Ok(scanned), Ok(()));
    assert_eq!(pinned_start(&pane), Some(1_786_752_000));
    let pane = refresh(pane, Ok(digest(&["/b"])));
    assert_eq!(pane.digest.window.source, WindowSource::SinceLastFirstRun);
    assert_eq!(pinned_start(&DigestPane::new(digest(&[]))), None);
}

#[test]
fn a_scan_records_nothing() {
    let base = Config {
        format: Format::Json,
        record_run: true,
        rollup: Some(Period::Week),
        until: Some("noon".to_string()),
        ..Config::default()
    };
    for (window, start, since, last) in [
        (WindowKind::Today, None, DEFAULT_SINCE, false),
        (WindowKind::Yesterday, None, "yesterday", false),
        (WindowKind::SinceLast, None, DEFAULT_SINCE, true),
        (WindowKind::SinceLast, Some(-5), "@-5", false),
    ] {
        let config = window_config(&base, window, start);
        assert!(!config.record_run);
        assert_eq!(config.format, Format::Text);
        assert_eq!((config.rollup, config.until), (None, None));
        assert_eq!(config.since, since);
        assert_eq!(config.since_last, last);
    }
    assert!(advances_marker(WindowKind::SinceLast));
    assert!(!advances_marker(WindowKind::Today));
    assert!(!advances_marker(WindowKind::Yesterday));
}

fn press(code: Code) -> KeyPress {
    KeyPress {
        code,
        control: false,
        motion: Motion::Press,
    }
}

#[test]
fn keys_are_what_they_are_called() {
    for (code, key) in [
        (Code::Up, Key::Up),
        (Code::Char('k'), Key::Up),
        (Code::Char('j'), Key::Down),
        (Code::Enter, Key::Enter),
        (Code::Escape, Key::Escape),
        (Code::Char('q'), Key::Quit),
        (Code::Char('t'), Key::Today),
        (Code::Char('y'), Key::Yesterday),
        (Code::Char('l'), Key::SinceLast),
        (Code::Char('R'), Key::Refresh),
        (Code::Char('c'), Key::Other),
        (Code::Other, Key::Other),
    ] {
        assert_eq!(map_key_event(press(code)), Some(key), "{code:?}");
    }
    let interrupt = KeyPress {
        control: true,
        ..press(Code::Char('c'))
    };
    assert_eq!(map_key_event(interrupt), Some(Key::Quit));
    let release = KeyPress {
        motion: Motion::Release,
        ..press(Code::Char('q'))
    };
    assert_eq!(map_key_event(release), None);
}

#[test]
fn a_click_selects_the_row_it_hits() {
    let start = pane(&["/a", "/b"]);
    let map = {
        let rows = body_lines(&start);
        let top = first_visible(&rows, start.cursor, 10);
        assert_eq!(top, 0);
        mouse_map(&rows, top, 10, 2, 5, 40)
    };
    // The repository line is drawn at row 5, its checkouts at 6 and 7.
    assert_eq!(map.cursor_at(3, 5), None);
    assert_eq!(map.cursor_at(3, 6), Some(0));
    assert_eq!(map.cursor_at(3, 7), Some(1));
    assert_eq!(map.cursor_at(1, 7), None);
    let (pane, redraw) = react(start, Event::Click { column: 3, row: 7 }, &map);
    assert_eq!(pane.cursor, 1);
    assert!(redraw);
    let (pane, redraw) = react(pane, Event::Click { column: 0, row: 0 }, &map);
    assert_eq!(pane.cursor, 1);
    assert!(!redraw);
    let (pane, _) = react(pane, Event::ScrollUp, &map);
    assert_eq!(pane.cursor, 0);
    let (pane, redraw) = react(pane, Event::Resize, &map);
    assert!(redraw);
    let (pane, _) = react(pane, Event::Key(press(Code::Char('q'))), &map);
    assert_eq!(pane.intent, Intent::Quit);
}

#[test]
fn the_cursor_is_in_view() {
    let paths: Vec<String> = (0..30).map(|i| format!("/c{i:02}")).collect();
    let names: Vec<&str> = paths.iter().map(String::as_str).collect();
    let pane = apply(pane(&names), Key::Focus(20));
    let rows = body_lines(&pane);
    let top = first_visible(&rows, pane.cursor, 5);
    let at = rows
        .iter()
        .position(|row| matches!(row, BodyLine::Checkout { cursor, .. } if *cursor == 20))
        .unwrap();
    assert!(top <= at && at < top + 5, "{top} {at}");
}

fn words(lines: &[Line]) -> String {
    lines
        .iter()
        .flat_map(|line| line.spans.iter().map(|span| span.text.as_str()))
        .collect()
}

#[test]
fn trouble_is_tagged_and_told() {
    let mut broken = checkout("/a", &[]);
    broken.report.problems = vec!["git hung".to_string()];
    let tags = status_specs(&broken);
    assert!(tags.iter().any(|tag| tag.colour == Colour::Red), "{tags:?}");
    let mut digest = digest(&[]);
    digest.repos[0].checkouts = vec![broken];
    let pane = DigestPane::new(digest);
    assert!(words(&detail_lines(&pane)).contains("git hung"));
}

#[test]
fn the_lines_name_what_they_show() {
    let pane = pane(&["/a"]);
    assert!(header_lines(&pane).join("\n").contains("2026-08-15 09:04"));
    assert!(repository_line(&pane.digest.repos[0], 80).contains("atlas"));
    let line = commit_line(&checkout("/a", &["Batch"]).report.commits[0], 80);
    let shown = words(&[line]);
    assert!(shown.contains("01234567") && shown.contains("Batch"), "{shown}");
    assert_ne!(help(200), help(20));
    let (body, detail) = region_heights(24);
    assert!(body + detail <= 24);
}
