use standup::clock::{Civil, Moment};
use standup::config::Config;
use standup::git::ask::{Ask, Output, Reply, Step};
use standup::git::Git;
use standup::model::{Note, Period, Severity, Stamp, WindowSource};
use standup::window::{
    next_date, parsing_context, period_noon, plan, previous_run, resolve, DateNeed, MarkerState,
    Plan,
};

/// 15 August 2026 in UTC, a Saturday, at some second of the day.
fn saturday(second: i64) -> Moment {
    Moment {
        epoch: 1_786_752_000 + second,
        civil: Some(Civil {
            years_since_1900: 126,
            month: 7,
            day: 15,
            hour: (second / 3_600) as i32,
            minute: (second / 60 % 60) as i32,
            second: (second % 60) as i32,
            weekday: 6,
            offset_seconds: 0,
            zone: Some("UTC".to_string()),
        }),
    }
}

fn stamp(epoch: i64) -> Stamp {
    Stamp {
        epoch,
        local: "2026-08-14 18:00".to_string(),
        zone: "UTC +0000".to_string(),
        offset_seconds: Some(0),
    }
}

fn planned(config: &Config, marker: MarkerState) -> Result<Plan, String> {
    let now = saturday(83_700);
    plan(config, &now, &now, marker, "/state/last-run.json")
}

#[test]
fn the_default_window_is_not_an_explicit_one() {
    let config = Config::default();
    let plan = planned(&config, MarkerState::Missing).unwrap();
    assert_eq!(plan.source, WindowSource::Default);
    assert_eq!(plan.start, None);
    assert!(plan.notes.is_empty());

    let config = Config {
        since: "yesterday".to_string(),
        since_is_explicit: true,
        ..Config::default()
    };
    assert_eq!(
        planned(&config, MarkerState::Missing).unwrap().source,
        WindowSource::Explicit {
            spec: "yesterday".to_string()
        }
    );
    let config = Config {
        since: " ".to_string(),
        ..Config::default()
    };
    assert_eq!(
        planned(&config, MarkerState::Missing).unwrap_err(),
        "--since needs a value; an empty window start cannot be resolved"
    );
}

#[test]
fn a_rollup_starts_with_its_period() {
    let now = saturday(83_700);
    let config = Config {
        rollup: Some(Period::Week),
        ..Config::default()
    };
    // Noon on Monday the 10th.
    let noon = period_noon(&config, &now).expect("a local zone");
    assert_eq!(noon, 1_786_752_000 - 5 * 86_400 + 43_200);
    let mut at = saturday(43_200);
    at.epoch = noon;
    let found = plan(&config, &now, &at, MarkerState::Missing, "/m").unwrap();
    assert_eq!(found.start, Some(1_786_752_000 - 5 * 86_400));
    assert_eq!(
        found.source,
        WindowSource::Rollup {
            period: Period::Week
        }
    );
    assert_eq!(period_noon(&Config::default(), &now), None);
}

fn since_last() -> Config {
    Config {
        since_last: true,
        ..Config::default()
    }
}

#[test]
fn since_last_starts_where_the_last_run_ended() {
    let found = planned(&since_last(), MarkerState::At(stamp(1_786_730_400))).unwrap();
    assert_eq!(found.start, Some(1_786_730_400));
    assert_eq!(
        found.source,
        WindowSource::SinceLast {
            previous_run: stamp(1_786_730_400)
        }
    );
    assert!(found.notes.is_empty());
}

#[test]
fn a_first_since_last_says_so() {
    let found = planned(&since_last(), MarkerState::Missing).unwrap();
    assert_eq!(found.source, WindowSource::SinceLastFirstRun);
    assert_eq!(found.notes.len(), 1);
    assert_eq!(found.notes[0].severity, Severity::Info);
    assert_eq!(
        found.notes[0].message,
        "--since-last has no previous run on record, so this digest covers the default window \
         (midnight) instead. The next --since-last will start where this run ends."
    );
}

#[test]
fn an_unreadable_marker_is_not_a_first_run() {
    let marker = || MarkerState::Unreadable("bad json".to_string());
    let found = planned(&since_last(), marker()).unwrap();
    assert_eq!(found.notes.len(), 1);
    assert_eq!(found.notes[0].severity, Severity::Warning);
    assert!(
        found.notes[0]
            .message
            .starts_with("the last-run marker /state/last-run.json exists but could not be read (bad json)"),
        "{}",
        found.notes[0].message
    );
    assert_eq!(
        previous_run(marker(), "/m"),
        (
            None,
            Some("standup: ignoring the unreadable last-run marker /m: bad json".to_string())
        )
    );
    assert_eq!(previous_run(MarkerState::Missing, "/m"), (None, None));
    assert_eq!(
        previous_run(MarkerState::At(stamp(7)), "/m"),
        (Some(stamp(7)), None)
    );
}

/// A marker ahead of the clock would render as a flawless empty digest.
#[test]
fn a_marker_in_the_future_is_refused() {
    let told = planned(&since_last(), MarkerState::At(stamp(1_800_000_000)))
        .expect_err("the clock moved");
    assert!(
        told.starts_with("the recorded previous run is in the future: 2026-08-14 18:00 UTC +0000"),
        "{told}"
    );
    assert!(told.contains("it is now 2026-08-15 23:15 UTC +0000"), "{told}");
    assert!(told.contains("/state/last-run.json"), "{told}");
}

fn default_plan() -> Plan {
    planned(&Config::default(), MarkerState::Missing).unwrap()
}

/// The start is parsed only where the plan gives none, the end only where one
/// was asked for, and both in one directory.
#[test]
fn only_what_was_asked_for_is_parsed() {
    let config = Config::default();
    let here = saturday(0);
    let plan = default_plan();
    assert_eq!(next_date(&plan, &config, None, None, None), DateNeed::Place);
    assert_eq!(
        next_date(&plan, &config, Some("/repo"), None, None),
        DateNeed::Since {
            repo: "/repo".to_string(),
            spec: "midnight".to_string()
        }
    );
    assert_eq!(
        next_date(&plan, &config, Some("/repo"), Some(&here), None),
        DateNeed::Settled
    );

    let bounded = Config {
        until: Some("noon".to_string()),
        ..Config::default()
    };
    let known = Plan {
        start: Some(7),
        ..default_plan()
    };
    assert_eq!(next_date(&known, &bounded, None, None, None), DateNeed::Start(7));
    assert_eq!(
        next_date(&known, &bounded, None, Some(&here), None),
        DateNeed::Place
    );
    assert_eq!(
        next_date(&known, &bounded, Some("/repo"), Some(&here), None),
        DateNeed::Until {
            repo: "/repo".to_string(),
            spec: "noon".to_string()
        }
    );
    assert_eq!(
        next_date(&known, &bounded, Some("/repo"), Some(&here), Some(&here)),
        DateNeed::Settled
    );
}

#[test]
fn a_window_is_two_instants() {
    let now = 1_786_752_000 + 83_700;
    let (window, notes) = resolve(default_plan(), now, &saturday(0), None).unwrap();
    assert_eq!(window.since.full(), "2026-08-15 00:00 UTC +0000");
    assert_eq!(window.until, None);
    assert!(notes.is_empty());

    let (window, _) = resolve(default_plan(), now, &saturday(0), Some(&saturday(3_600))).unwrap();
    assert_eq!(window.until.unwrap().local, "2026-08-15 01:00");
}

#[test]
fn a_window_that_runs_backwards_is_refused() {
    assert_eq!(
        resolve(default_plan(), 0, &saturday(3_600), Some(&saturday(0))).unwrap_err(),
        "the window starts after it ends: --since resolves to 2026-08-15 01:00 UTC +0000 and \
         --until to 2026-08-15 00:00 UTC +0000. Nothing can be reported over a window that runs \
         backwards."
    );
}

#[test]
fn a_window_that_starts_now_says_why_it_is_empty() {
    let now = 1_786_752_000 + 3_600;
    let (_, notes) = resolve(default_plan(), now, &saturday(3_595), None).unwrap();
    assert_eq!(notes.len(), 1);
    assert_eq!(notes[0].severity, Severity::Warning);
    assert!(notes[0].message.contains("try --since midnight"), "{:?}", notes[0]);

    let since_last = Plan {
        source: WindowSource::SinceLast {
            previous_run: stamp(now),
        },
        start: Some(now),
        notes: vec![Note::info("kept".to_string())],
    };
    let (_, notes) = resolve(since_last, now, &saturday(3_600), None).unwrap();
    assert_eq!(notes.len(), 2);
    assert_eq!(notes[0].message, "kept");
    assert!(
        notes[1].message.contains("the previous digest was only moments ago"),
        "{:?}",
        notes[1]
    );
    // Six seconds are a window.
    let (_, notes) = resolve(default_plan(), now, &saturday(3_594), None).unwrap();
    assert!(notes.is_empty());
}

fn context(anchors: &[&str], answer: impl Fn(&Ask) -> Reply) -> Result<String, String> {
    let git = Git::new("git".to_string(), 20);
    let anchors: Vec<String> = anchors.iter().map(|anchor| anchor.to_string()).collect();
    let mut heard = Vec::new();
    loop {
        match parsing_context(&git, &anchors, "/state/dateref.git", &heard) {
            Step::Ask(ask) => heard.push(answer(&ask)),
            Step::Done { value, .. } => return value.found,
        }
    }
}

#[test]
fn a_date_is_parsed_where_there_is_a_directory() {
    assert_eq!(
        context(&["/gone", "/repo", "/other"], |ask| match ask {
            Ask::IsDirectory { path } if path == "/gone" => Reply::No,
            Ask::IsDirectory { .. } => Reply::Yes,
            other => panic!("unexpected {other:?}"),
        }),
        Ok("/repo".to_string())
    );
    let exit = |code: i32| {
        Reply::Ran(Output {
            code: Some(code),
            stdout: Vec::new(),
            stderr: b"denied".to_vec(),
        })
    };
    assert_eq!(
        context(&["/gone"], |ask| match ask {
            Ask::IsDirectory { .. } => Reply::No,
            Ask::MakeDirectory { .. } => Reply::Made,
            Ask::Run { args, .. } => exit(i32::from(args[0] != "init")),
            other => panic!("unexpected {other:?}"),
        }),
        Ok("/state/dateref.git".to_string())
    );
    assert_eq!(
        context(&[], |ask| match ask {
            Ask::MakeDirectory { .. } => Reply::Made,
            _ => exit(128),
        }),
        Err("could not create the date-reference repository at /state/dateref.git: denied".to_string())
    );
}
