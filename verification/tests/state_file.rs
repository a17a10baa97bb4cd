use standup::state_file::{
    explain, leaves_temporary, retry_interrupted, temp_name, Attempt, Stage,
};

#[test]
fn advisory_lock_retries_interrupted_acquisition() {
    let mut attempts = 0;

    loop {
        attempts += 1;
        let attempt = if attempts < 3 {
            Attempt::Interrupted
        } else {
            Attempt::Acquired
        };
        if !retry_interrupted(attempt) {
            assert_eq!(attempt, Attempt::Acquired, "lock eventually acquired");
            break;
        }
    }

    assert_eq!(attempts, 3);
}

#[test]
fn a_failed_lock_is_not_tried_again() {
    assert!(!retry_interrupted(Attempt::Failed));
}

#[test]
fn each_step_of_a_replacement_explains_its_own_failure() {
    let told = |stage| explain(stage, "/s/a.json", "/s", "/s/.a.1.2.tmp", "refused");
    assert_eq!(
        told(Stage::Directory),
        "could not create the state directory /s: refused"
    );
    assert_eq!(told(Stage::Write), "could not write /s/.a.1.2.tmp: refused");
    assert_eq!(told(Stage::Rename), "could not replace /s/a.json: refused");
    assert_eq!(
        told(Stage::Sync),
        "could not make replacement of /s/a.json durable by syncing containing directory /s: \
         refused"
    );
}

#[test]
fn only_an_unfinished_replacement_leaves_a_temporary() {
    assert!(!leaves_temporary(Stage::Directory));
    assert!(leaves_temporary(Stage::Write));
    assert!(leaves_temporary(Stage::Rename));
    assert!(!leaves_temporary(Stage::Sync));
}

#[test]
fn a_temporary_is_named_by_process_and_number() {
    assert_eq!(temp_name("marker", 41, 7), ".marker.41.7.tmp");
}
