use tsong::generation::{GenerationTracker, GenerationValue};
use tsong::metadata::Metadata;
use tsong::errors::{ErrorLog, reset_from, from, get, generation, if_newer_than, clear_if_not_newer_than};
use tsong::text::{decimal, starts_with, ends_with, has_char, append_str};

#[test]
fn tracker_starts_at_not_generated() {
    let t = GenerationTracker::new();
    assert!(t.has_not_changed_since(&GenerationValue::not_generated()));
    assert_eq!(t.snapshot(), GenerationValue::not_generated());
}

#[test]
fn bump_makes_snapshot_stale() {
    let mut t = GenerationTracker::new();
    let before = t.snapshot();
    assert!(t.has_not_changed_since(&before));
    t.bump();
    assert!(!t.has_not_changed_since(&before));
    let after = t.snapshot();
    assert!(t.has_not_changed_since(&after));
}

#[test]
fn many_bumps_keep_snapshot_stale() {
    let mut t = GenerationTracker::new();
    t.bump();
    let before = t.snapshot();
    for _ in 0..1000 {
        t.bump();
        assert!(!t.has_not_changed_since(&before));
    }
}

#[test]
fn destroyed_value_is_not_generated() {
    let mut t = GenerationTracker::new();
    t.bump();
    let mut v = t.snapshot();
    v.destroy();
    assert_eq!(v, GenerationValue::not_generated());
    assert_eq!(GenerationValue::default(), GenerationValue::not_generated());
    // a touched tracker does not consider a destroyed value current
    assert!(!t.has_not_changed_since(&v));
}

#[test]
fn metadata_get_after_insert() {
    let mut m = Metadata::new();
    m.insert("artist".to_owned(), "Loreena McKennitt".to_owned());
    m.insert("album".to_owned(), "The Mask and Mirror".to_owned());
    assert_eq!(m.get("artist").map(|s| s.as_str()), Some("Loreena McKennitt"));
    m.insert("artist".to_owned(), "Someone Else".to_owned());
    assert_eq!(m.get("artist").map(|s| s.as_str()), Some("Someone Else"));
    assert_eq!(m.entry_count(), 2);
    assert_eq!(m.get_or_empty("title"), "");
}

#[test]
fn metadata_remove_then_get_is_none() {
    let mut m = Metadata::new();
    m.insert("title".to_owned(), "Marco Polo".to_owned());
    assert_eq!(m.remove("title"), Some("Marco Polo".to_owned()));
    assert_eq!(m.get("title"), None);
    assert_eq!(m.remove("title"), None);
    assert!(!m.contains_key("title"));
}

#[test]
fn metadata_from_pairs_later_wins() {
    let m = Metadata::from_pairs(vec![
        ("a".to_owned(), "1".to_owned()),
        ("b".to_owned(), "2".to_owned()),
        ("a".to_owned(), "3".to_owned()),
    ]);
    assert_eq!(m.get("a").map(|s| s.as_str()), Some("3"));
    assert_eq!(m.get("b").map(|s| s.as_str()), Some("2"));
    assert_eq!(m.entry_count(), 2);
    let back = Metadata::from_pairs(m.to_pairs());
    assert!(back.same_as(&m));
}

#[test]
fn error_log_collects_and_resets() {
    let mut log = ErrorLog::new();
    let g0 = generation(&log);
    from(&mut log, "Scan", "could not open a.mp3".to_owned());
    from(&mut log, "Scan", "could not open b.mp3".to_owned());
    from(&mut log, "Playback Thread", "device lost".to_owned());
    let all = get(&log);
    assert_eq!(all.len(), 2);
    let scan = all.iter().find(|(s, _)| s == "Scan").unwrap();
    assert_eq!(scan.1, vec!["could not open a.mp3".to_owned(), "could not open b.mp3".to_owned()]);
    assert!(if_newer_than(&log, &g0).is_some());
    reset_from(&mut log, "Scan");
    let all = get(&log);
    assert_eq!(all.len(), 1);
    assert_eq!(all[0].0, "Playback Thread");
}

#[test]
fn error_log_clear_only_when_not_newer() {
    let mut log = ErrorLog::new();
    from(&mut log, "Scan", "x".to_owned());
    let seen = generation(&log);
    assert!(if_newer_than(&log, &seen).is_none());
    from(&mut log, "Scan", "y".to_owned());
    clear_if_not_newer_than(&mut log, &seen);
    assert_eq!(get(&log).len(), 1);
    let seen = generation(&log);
    clear_if_not_newer_than(&mut log, &seen);
    assert_eq!(get(&log).len(), 0);
}

#[test]
fn text_helpers() {
    assert_eq!(decimal(0), "0");
    assert_eq!(decimal(1234567890), "1234567890");
    assert!(starts_with("iTunes Library x", "iTunes Library "));
    assert!(!starts_with("iTu", "iTunes"));
    assert!(ends_with("song.m3u", ".m3u"));
    assert!(has_char("a.b", '.'));
    let mut s = "ab".to_owned();
    append_str(&mut s, "cd");
    assert_eq!(s, "abcd");
}
