use standup::cache::{Cache, Entry, Ids, Stored, MAX_ANSWERS, MAX_IDS_PER_RANGE, VERSION};
use standup::config::Environment;
use standup::model::Landed;

fn merged(into: &str) -> Landed {
    Landed::Merged {
        into: into.to_string(),
    }
}

fn at(stored: Option<Stored>) -> Cache {
    Cache::at("/state/cache.json".to_string(), stored)
}

#[test]
fn an_answer_is_given_back() {
    let mut cache = Cache::in_memory();
    let key = Cache::answer_key("head", "origin/main", "trunk");
    assert_eq!(cache.answer(&key), None);
    cache.remember_answer(key.clone(), merged("origin/main"));
    assert_eq!(cache.answer(&key), Some(merged("origin/main")));
    assert_eq!(cache.answer(&key), Some(merged("origin/main")));
    assert_ne!(key, Cache::answer_key("head", "origin/main", "other"));
    // A cache in memory goes nowhere.
    assert_eq!(cache.save(), None);
}

#[test]
fn a_range_is_given_back_unless_it_is_too_long() {
    let mut cache = Cache::in_memory();
    let key = Cache::range_key("base", "trunk");
    let ids = |n: usize| Ids {
        ids: (0..n).map(|i| (format!("p{i}"), format!("c{i}"))).collect(),
    };
    cache.remember_range(key.clone(), ids(2));
    assert_eq!(cache.range(&key), Some(ids(2)));
    let long = Cache::range_key("base", "longer");
    cache.remember_range(long.clone(), ids(MAX_IDS_PER_RANGE + 1));
    assert_eq!(cache.range(&long), None);
}

#[test]
fn a_saved_cache_reads_back() {
    let mut cache = at(None);
    let key = Cache::answer_key("head", "main", "trunk");
    cache.remember_answer(key.clone(), merged("main"));
    let (path, stored) = cache.save().expect("something to save");
    assert_eq!(path, "/state/cache.json");
    assert_eq!(stored.version, VERSION);
    assert_eq!(stored.answers.len(), 1);
    cache.saved();
    assert_eq!(cache.save(), None, "nothing new to save");

    let mut again = at(Some(stored));
    assert_eq!(again.answer(&key), Some(merged("main")));
}

#[test]
fn another_version_is_not_read() {
    let mut cache = at(Some(Stored {
        version: VERSION + 1,
        runs: 4,
        answers: vec![(
            "key".to_string(),
            Entry {
                used: 4,
                value: merged("main"),
            },
        )],
        ranges: Vec::new(),
    }));
    assert_eq!(cache.answer("key"), None);
}

#[test]
fn the_least_recently_used_answers_are_dropped() {
    let answers = (0..MAX_ANSWERS + 2)
        .map(|i| {
            (
                format!("key{i}"),
                Entry {
                    used: if i < 2 { 1 } else { 5 },
                    value: merged("main"),
                },
            )
        })
        .collect();
    let mut cache = at(Some(Stored {
        version: VERSION,
        runs: 5,
        answers,
        ranges: Vec::new(),
    }));
    // Using one of the two oldest keeps it.
    assert_eq!(cache.answer("key0"), Some(merged("main")));
    cache.remember_answer("new".to_string(), merged("main"));
    let (_, stored) = cache.save().expect("something to save");
    assert_eq!(stored.answers.len(), MAX_ANSWERS);
    let has = |key: &str| stored.answers.iter().any(|(held, _)| held == key);
    assert!(has("key0") && has("new"));
    assert!(!has("key1"));
}

#[test]
fn the_cache_lives_in_the_state_directory() {
    let environment = Environment {
        plugin_id: None,
        plugin_state_dir: Some("/host/state".to_string()),
        plugin_config_dir: None,
        xdg_state_home: None,
        xdg_config_home: None,
        home: None,
        temp_dir: "/tmp".to_string(),
    };
    let mut cache = Cache::load(&environment, None);
    cache.remember_answer("key".to_string(), merged("main"));
    let (path, _) = cache.save().expect("something to save");
    assert_eq!(path, "/host/state/plumbing-cache.json");
}

/// Anything that could change an answer moves an object id, and so the key.
#[test]
fn another_commit_is_another_key() {
    let key = Cache::answer_key("aaaa", "origin/main", "tttt");
    assert_eq!(key, "aaaa origin/main tttt");
    assert_ne!(key, Cache::answer_key("aaab", "origin/main", "tttt"));
    assert_ne!(key, Cache::answer_key("aaaa", "origin/dev", "tttt"));
    assert_ne!(key, Cache::answer_key("aaaa", "origin/main", "tttu"));
    assert_eq!(Cache::range_key("bbbb", "tttt"), "bbbb..tttt");
}
