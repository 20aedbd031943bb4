use cosmic_settings_daemon::classify::{
    carries_changes, changes_of_event, classify, parse_version, path_segments, Change, EventClass,
};

fn config_change(c: Option<Change>) -> Option<(String, String, u64)> {
    match c {
        Some(Change::Config(n, k, v)) => Some((n, k, v)),
        _ => None,
    }
}

fn state_change(c: Option<Change>) -> Option<(String, String, u64)> {
    match c {
        Some(Change::State(n, k, v)) => Some((n, k, v)),
        _ => None,
    }
}

#[test]
fn key_below_config_root_is_a_config_change() {
    let c = classify("/home/u/.config/cosmic/a/b/v3/key", true, Some("/home/u/.config/cosmic"), Some("/home/u/.local/state/cosmic"));
    assert_eq!(config_change(c), Some(("a.b".to_string(), "key".to_string(), 3)));
}

#[test]
fn key_below_state_root_is_a_state_change() {
    let c = classify("/home/u/.local/state/cosmic/a/b/v3/key", true, Some("/home/u/.config/cosmic"), Some("/home/u/.local/state/cosmic"));
    assert_eq!(state_change(c), Some(("a.b".to_string(), "key".to_string(), 3)));
}

#[test]
fn namespace_segments_become_dotted() {
    let c = classify("/cfg/com/example/foo/v1/bar", true, Some("/cfg"), None);
    assert_eq!(config_change(c), Some(("com.example.foo".to_string(), "bar".to_string(), 1)));
}

#[test]
fn staging_segment_is_ignored_anywhere() {
    assert!(classify("/cfg/.atomicwrite/a/v1/key", true, Some("/cfg"), None).is_none());
    assert!(classify("/cfg/a/v1/.atomicwrite/key", true, Some("/cfg"), None).is_none());
    assert!(classify("/cfg/a/.atomicwrite/v1/key", true, Some("/cfg"), None).is_none());
}

#[test]
fn directories_are_ignored() {
    assert!(classify("/cfg/a/b/v3/key", false, Some("/cfg"), None).is_none());
}

#[test]
fn paths_outside_both_roots_are_ignored() {
    assert!(classify("/elsewhere/a/b/v3/key", true, Some("/cfg"), Some("/state")).is_none());
    assert!(classify("/cfgx/a/b/v3/key", true, Some("/cfg"), None).is_none());
    assert!(classify("/cfg/a/b/v3/key", true, None, None).is_none());
}

#[test]
fn malformed_shapes_are_ignored() {
    assert!(classify("/cfg/v3/key", true, Some("/cfg"), None).is_none());
    assert!(classify("/cfg/a/3/key", true, Some("/cfg"), None).is_none());
    assert!(classify("/cfg/a/vx/key", true, Some("/cfg"), None).is_none());
    assert!(classify("/cfg/a/v/key", true, Some("/cfg"), None).is_none());
    assert!(classify("/cfg/a/v+3/key", true, Some("/cfg"), None).is_none());
    assert!(classify("/cfg/a/v18446744073709551616/key", true, Some("/cfg"), None).is_none());
}

#[test]
fn largest_version_is_read() {
    let c = classify("/cfg/a/v18446744073709551615/key", true, Some("/cfg"), None);
    assert_eq!(config_change(c), Some(("a".to_string(), "key".to_string(), u64::MAX)));
}

#[test]
fn repeated_separators_change_nothing() {
    let c = classify("//cfg//a///b/v3/key/", true, Some("/cfg/"), None);
    assert_eq!(config_change(c), Some(("a.b".to_string(), "key".to_string(), 3)));
}

#[test]
fn config_root_is_tried_first() {
    let c = classify("/root/a/v2/k", true, Some("/root"), Some("/root"));
    assert_eq!(config_change(c), Some(("a".to_string(), "k".to_string(), 2)));
}

#[test]
fn segments_and_versions() {
    assert_eq!(path_segments("/a//b/c/"), vec!["a".to_string(), "b".to_string(), "c".to_string()]);
    assert_eq!(path_segments(""), Vec::<String>::new());
    assert_eq!(parse_version("v0"), Some(0));
    assert_eq!(parse_version("v42"), Some(42));
    assert_eq!(parse_version("42"), None);
}

#[test]
fn event_batches() {
    let paths = vec![
        ("/cfg/a/v1/k".to_string(), true),
        ("/cfg/a/v1".to_string(), false),
        ("/elsewhere/x/v1/k".to_string(), true),
        ("/state/b/v2/j".to_string(), true),
    ];
    let batch = changes_of_event(EventClass::Content, &paths, Some("/cfg"), Some("/state"));
    assert_eq!(batch.len(), 2);
    assert_eq!(config_change(Some(batch[0].clone())), Some(("a".to_string(), "k".to_string(), 1)));
    assert_eq!(state_change(Some(batch[1].clone())), Some(("b".to_string(), "j".to_string(), 2)));
    assert!(changes_of_event(EventClass::Access, &paths, Some("/cfg"), Some("/state")).is_empty());
    assert!(changes_of_event(EventClass::Metadata, &paths, Some("/cfg"), Some("/state")).is_empty());
    assert!(carries_changes(EventClass::Content));
    assert!(!carries_changes(EventClass::Access));
}
