use notetree::errors::WatchError;
use notetree::watch::RawEventKind;
use notetree::watch::WatchSession;
use notetree::watch::check_watch_root;
use notetree::watch::classify_event;
use notetree::watch::normalize_events;

#[test]
fn new_session_is_idle() {
    let s = WatchSession::new();
    assert!(!s.is_watching());
    assert_eq!(s.watched_root(), None);
}

#[test]
fn successful_start_watches_root() {
    let mut s = WatchSession::new();
    assert!(s.start("/notes", true).is_ok());
    assert!(s.is_watching());
    assert_eq!(s.watched_root().unwrap().as_str(), "/notes");
}

#[test]
fn second_start_replaces_first() {
    let mut s = WatchSession::new();
    s.start("/root_a", true).unwrap();
    s.start("/root_b", true).unwrap();
    assert!(s.is_watching());
    assert_eq!(s.watched_root().unwrap().as_str(), "/root_b");
}

#[test]
fn failed_start_reverts_to_idle() {
    let mut s = WatchSession::new();
    s.start("/root_a", true).unwrap();
    let err = s.start("/root_b", false).unwrap_err();
    match err {
        WatchError::SetupFailed { path } => assert_eq!(path, "/root_b"),
        _ => panic!("setup failure expected"),
    }
    assert!(!s.is_watching());
}

#[test]
fn stop_when_idle_is_safe() {
    let mut s = WatchSession::new();
    s.stop();
    assert!(!s.is_watching());
    s.stop();
    assert!(!s.is_watching());
}

#[test]
fn stop_tears_down_active_watch() {
    let mut s = WatchSession::new();
    s.start("/notes", true).unwrap();
    s.stop();
    assert!(!s.is_watching());
    assert_eq!(s.watched_root(), None);
}

#[test]
fn raw_kinds_classify_to_event_types() {
    assert_eq!(classify_event(&RawEventKind::Create).unwrap(), "create");
    assert_eq!(classify_event(&RawEventKind::Remove).unwrap(), "delete");
    assert_eq!(classify_event(&RawEventKind::NameChange).unwrap(), "rename");
    assert_eq!(classify_event(&RawEventKind::Other), None);
}

#[test]
fn normalize_produces_one_event_per_path() {
    let paths = vec!["/n/a.md".to_string(), "/n/b.md".to_string()];
    let events = normalize_events(&RawEventKind::Create, &paths);
    assert_eq!(events.len(), 2);
    assert_eq!(events[0].event_type, "create");
    assert_eq!(events[0].path, "/n/a.md");
    assert_eq!(events[1].event_type, "create");
    assert_eq!(events[1].path, "/n/b.md");
}

#[test]
fn unclassified_kind_produces_no_events() {
    let paths = vec!["/n/a.md".to_string()];
    let events = normalize_events(&RawEventKind::Other, &paths);
    assert!(events.is_empty());
}

#[test]
fn watch_root_validation_mirrors_scan() {
    match check_watch_root("/gone", false, false) {
        Err(e @ WatchError::NotFound { .. }) => {
            assert_eq!(e.message(), "Directory does not exist: /gone");
        }
        _ => panic!("a missing watch root must be rejected"),
    }
    match check_watch_root("/a.md", true, false) {
        Err(WatchError::WrongKind { path }) => assert_eq!(path, "/a.md"),
        _ => panic!("a non-directory watch root must be rejected"),
    }
    assert!(check_watch_root("/notes", true, true).is_ok());
}

#[test]
fn lock_contention_has_its_own_message() {
    assert_eq!(WatchError::LockContention.message(), "Failed to lock watcher state");
}
