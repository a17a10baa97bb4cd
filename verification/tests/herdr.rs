use std::cmp::Ordering;

use standup::config::RepositoryScope;
use standup::herdr::{
    error_code, natural_cmp, reduce_snapshot, reduce_snapshot_scoped, text, tidy_path, Body,
    Failure, HerdrError, Json,
};

#[test]
fn pane_ids_order_by_number_not_by_character() {
    let mut ids = vec!["w15:p10", "w15:p2", "w15:p1", "w9:p1"];
    ids.sort_by(|a, b| natural_cmp(a, b));
    assert_eq!(ids, ["w9:p1", "w15:p1", "w15:p2", "w15:p10"]);
}

#[test]
fn a_dot_component_is_dropped_but_the_path_survives() {
    assert_eq!(tidy_path("/home/you/repo/."), "/home/you/repo");
    assert_eq!(tidy_path("/home/you/repo"), "/home/you/repo");
    // A path that is nothing but `.` still has to resolve to something.
    assert_eq!(tidy_path("."), ".");
}

#[test]
fn the_kernels_deleted_marker_is_not_part_of_the_name() {
    assert_eq!(tidy_path("/home/you/repo (deleted)"), "/home/you/repo");
    // Only as a suffix, and only the exact marker.
    assert_eq!(
        tidy_path("/home/you/repo (deleted)/src"),
        "/home/you/repo (deleted)/src"
    );
    assert_eq!(tidy_path("/home/you/deleted"), "/home/you/deleted");
    // Stripping down to nothing would be worse than keeping the marker.
    assert_eq!(tidy_path(" (deleted)"), " (deleted)");
}

fn string(s: &str) -> Json {
    Json {
        shown: format!("{s:?}"),
        body: Body::Text(s.to_string()),
    }
}

fn number(n: u64) -> Json {
    Json {
        shown: format!("{n}"),
        body: Body::Number(n),
    }
}

fn list(items: Vec<Json>) -> Json {
    Json {
        shown: "[…]".to_string(),
        body: Body::List(items),
    }
}

fn object(fields: Vec<(&str, Json)>) -> Json {
    Json {
        shown: "{…}".to_string(),
        body: Body::Object(
            fields
                .into_iter()
                .map(|(key, value)| (key.to_string(), value))
                .collect(),
        ),
    }
}

#[test]
fn an_empty_string_is_absent_not_a_value() {
    let value = object(vec![("label", string("  ")), ("other", string("x"))]);
    assert_eq!(text(&value, "label"), None);
    assert_eq!(text(&value, "other"), Some("x".to_string()));
}

#[test]
fn only_a_string_field_is_text() {
    let value = object(vec![("label", number(3))]);
    assert_eq!(text(&value, "label"), None);
    assert_eq!(text(&value, "missing"), None);
    assert_eq!(text(&string("label"), "label"), None);
    assert_eq!(
        text(&object(vec![("label", string(" x "))]), "label"),
        Some("x".to_string())
    );
}

#[test]
fn natural_order_breaks_ties_by_length() {
    assert_eq!(natural_cmp("p1", "p1"), Ordering::Equal);
    assert_eq!(natural_cmp("p", "p1"), Ordering::Less);
    assert_eq!(natural_cmp("p10", "p9"), Ordering::Greater);
    assert_eq!(natural_cmp("a1", "b0"), Ordering::Less);
    // Beyond any machine word.
    assert_eq!(
        natural_cmp("p99999999999999999999998", "p99999999999999999999999"),
        Ordering::Less
    );
}

fn session() -> Json {
    object(vec![
        ("type", string("session_snapshot")),
        (
            "snapshot",
            object(vec![
                (
                    "workspaces",
                    list(vec![
                        object(vec![
                            ("workspace_id", string("w1")),
                            ("label", string("atlas")),
                            ("number", number(3)),
                            (
                                "worktree",
                                object(vec![("checkout_path", string("/code/atlas"))]),
                            ),
                            ("agent_status", string("working")),
                        ]),
                        object(vec![("label", string("no id"))]),
                    ]),
                ),
                (
                    "panes",
                    list(vec![
                        object(vec![
                            ("workspace_id", string("w1")),
                            ("pane_id", string("w1:p10")),
                            ("cwd", string("/code/atlas/.")),
                            ("agent", string("opencode")),
                        ]),
                        object(vec![
                            ("workspace_id", string("w1")),
                            ("pane_id", string("w1:p2")),
                            ("cwd", string("/code/plugin")),
                        ]),
                    ]),
                ),
                (
                    "agents",
                    list(vec![object(vec![
                        ("workspace_id", string("w1")),
                        ("pane_id", string("w1:p2")),
                        ("name", string("kestrel")),
                        ("agent", string("opencode")),
                        (
                            "agent_session",
                            object(vec![("value", string("session-9"))]),
                        ),
                    ])]),
                ),
            ]),
        ),
    ])
}

#[test]
fn a_snapshot_reduces_to_its_workspaces() {
    let workspaces = reduce_snapshot(&session()).expect("a whole snapshot");
    assert_eq!(workspaces.len(), 1, "a workspace without an id is no workspace");
    let workspace = &workspaces[0];
    assert_eq!(workspace.workspace_id, "w1");
    assert_eq!(workspace.label, "atlas");
    assert_eq!(workspace.number, Some(3));
    assert_eq!(workspace.agent_status, Some("working".to_string()));
    // Each directory once, the tracked checkout first.
    assert_eq!(workspace.paths, ["/code/atlas", "/code/plugin"]);
    // In pane order, and the pane that runs an agent nobody listed is there too.
    let panes: Vec<&str> = workspace
        .agents
        .iter()
        .map(|agent| agent.pane_id.as_str())
        .collect();
    assert_eq!(panes, ["w1:p2", "w1:p10"]);
    assert_eq!(workspace.agents[0].name, Some("kestrel".to_string()));
    assert_eq!(workspace.agents[0].session_id, Some("session-9".to_string()));
    // Its own row says nothing of a directory, so the pane's stands in.
    assert_eq!(workspace.agents[0].cwd, Some("/code/plugin".to_string()));
    assert_eq!(workspace.agents[1].program, Some("opencode".to_string()));
    assert_eq!(workspace.agents[1].cwd, Some("/code/atlas".to_string()));
}

#[test]
fn the_plugins_own_directory_is_not_a_candidate() {
    let scope = RepositoryScope {
        workspace_id: Some("w1".to_string()),
        invocation_cwd: Some("/code/atlas".to_string()),
        plugin_root: Some("/code/plugin".to_string()),
    };
    let workspaces = reduce_snapshot_scoped(&session(), &scope).expect("a whole snapshot");
    assert_eq!(workspaces[0].paths, ["/code/atlas"]);
}

#[test]
fn a_partial_snapshot_is_an_error() {
    let wrong = object(vec![("type", string("pong"))]);
    let told = reduce_snapshot(&wrong).expect_err("no snapshot");
    assert!(
        told.contains("expected result `type` to be `session_snapshot`"),
        "{told}"
    );
    assert!(told.contains("result type `pong`"), "{told}");

    let bare = object(vec![
        ("type", string("session_snapshot")),
        ("snapshot", number(4)),
    ]);
    let told = reduce_snapshot(&bare).expect_err("no object");
    assert!(
        told.contains("required `snapshot` must be an object"),
        "{told}"
    );

    let partial = object(vec![
        ("type", string("session_snapshot")),
        (
            "snapshot",
            object(vec![
                ("version", string("0.7.5")),
                ("protocol", number(2)),
                ("workspaces", list(Vec::new())),
                ("panes", list(Vec::new())),
            ]),
        ),
    ]);
    assert_eq!(
        reduce_snapshot(&partial).expect_err("no agents"),
        "invalid herdr response contract for session.snapshot: required `snapshot.agents` must be \
         an array; available metadata: result type `session_snapshot`, snapshot version `0.7.5`, \
         snapshot protocol `2`"
    );
}

#[test]
fn an_answered_failure_keeps_its_code() {
    let failure = Failure::Answered(HerdrError {
        code: "unsupported".to_string(),
        message: "no such method".to_string(),
    });
    assert_eq!(error_code(&failure), Some("unsupported"));
    assert_eq!(failure.text(), "herdr unsupported: no such method");
    let failure = Failure::Other("socket gone".to_string());
    assert_eq!(error_code(&failure), None);
    assert_eq!(failure.text(), "socket gone");
}
