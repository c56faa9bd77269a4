use tsong::metadata::Metadata;
use tsong::physical::FileID;
use tsong::logical::{SongID, SongLibrary, SimilarityRec, add_new_song};
use tsong::playlist::{Playlist, PlaylistID, Playmode, Column, default_columns, default_sort_order};
use tsong::tree::{PlaylistTree, add_playlist_from_db};
use tsong::rules::verdicts_from_answers;

fn meta(pairs: &[(&str, &str)]) -> Metadata {
    let mut m = Metadata::new();
    for (k, v) in pairs {
        m.insert(k.to_string(), v.to_string());
    }
    m
}

fn library(songs: &[(u64, &[(&str, &str)])]) -> SongLibrary {
    let mut lib = SongLibrary::new();
    for (id, pairs) in songs {
        let m = meta(pairs);
        let file = FileID::from_file(format!("file {}", id).as_bytes());
        let rec = SimilarityRec::new(format!("{}.mp3", id), 100, &m);
        add_new_song(&mut lib, SongID::from_inner(*id), m, file, rec);
    }
    lib
}

fn one_playlist(rule: &str, manual: &[u64]) -> PlaylistTree {
    let mut tree = PlaylistTree::new();
    add_playlist_from_db(&mut tree, PlaylistID::from_inner(1), None, 0, "P".to_owned(), rule.to_owned(), false,
        Playmode::End, manual.iter().map(|x| SongID::from_inner(*x)).collect(), default_columns(), default_sort_order());
    tree
}

fn ids(p: &Playlist) -> Vec<u64> {
    p.get_songs().iter().map(|s| s.as_inner()).collect()
}

#[test]
fn playmode_cycles_and_round_trips() {
    let m = Playmode::End;
    assert_eq!(m.bump(), Playmode::Loop);
    assert_eq!(m.bump().bump(), Playmode::LoopOne);
    assert_eq!(m.bump().bump().bump(), Playmode::End);
    for m in [Playmode::End, Playmode::Loop, Playmode::LoopOne] {
        assert_eq!(Playmode::from_db_value(m.to_db_value() as i64), m);
    }
    assert_eq!(Playmode::from_db_value(17), Playmode::End);
}

#[test]
fn defaults_of_a_new_playlist() {
    let cols = default_columns();
    let tags: Vec<&str> = cols.iter().map(|c| c.tag.as_str()).collect();
    assert_eq!(tags, vec!["title", "duration", "artist", "album"]);
    assert_eq!(cols[0].width, 220);
    assert_eq!(cols[1].width, 50);
    assert_eq!(cols[2].width, 117);
    let order = default_sort_order();
    assert_eq!(order[0], ("disc#".to_owned(), false));
    assert_eq!(order[3], ("title".to_owned(), false));
}

#[test]
fn rule_free_playlist_holds_manual_songs_found() {
    let lib = library(&[(1, &[("title", "A")]), (2, &[("title", "B")])]);
    let mut tree = one_playlist("", &[2, 9, 1]);
    let p = tree.playlist_at_mut(0);
    assert_eq!(p.refresh(&lib), Ok(()));
    let mut got = ids(p);
    got.sort();
    assert_eq!(got, vec![1, 2]);
    assert_eq!(p.get_library_generation(), tsong::logical::get_generation(&lib));
}

#[test]
fn sorted_by_track_number_alphanumerically() {
    let lib = library(&[
        (1, &[("track#", "10"), ("title", "Ten")]),
        (2, &[("track#", "2"), ("title", "Two")]),
        (3, &[("track#", "1"), ("title", "One")]),
    ]);
    let mut tree = one_playlist("", &[1, 2, 3]);
    let p = tree.playlist_at_mut(0);
    p.refresh(&lib).unwrap();
    assert_eq!(ids(p), vec![3, 2, 1]);
    let before = p.get_playlist_generation();
    assert!(!p.resort(&lib));
    assert_eq!(p.get_playlist_generation(), before);
}

#[test]
fn clicking_headings() {
    let lib = library(&[
        (1, &[("artist", "b")]),
        (2, &[("artist", "a")]),
        (3, &[("artist", "c")]),
    ]);
    let mut tree = one_playlist("", &[1, 2, 3]);
    let p = tree.playlist_at_mut(0);
    p.refresh(&lib).unwrap();
    p.touched_heading("artist", &lib);
    assert_eq!(p.get_sort_order()[0], ("artist".to_owned(), false));
    assert_eq!(p.get_sort_order().len(), 5);
    assert_eq!(ids(p), vec![2, 1, 3]);
    p.touched_heading("artist", &lib);
    assert_eq!(p.get_sort_order()[0], ("artist".to_owned(), true));
    assert_eq!(ids(p), vec![3, 1, 2]);
    p.touched_heading("artist", &lib);
    assert_eq!(p.get_sort_order()[0], ("artist".to_owned(), false));
    // a tag already present moves to the front
    p.touched_heading("album", &lib);
    assert_eq!(p.get_sort_order()[0], ("album".to_owned(), false));
    assert_eq!(p.get_sort_order()[1], ("artist".to_owned(), false));
    assert_eq!(p.get_sort_order().len(), 5);
    // a shuffled playlist is unshuffled without flipping the front tag
    assert!(p.toggle_shuffle(&lib));
    p.touched_heading("album", &lib);
    assert!(!p.is_shuffled());
    assert_eq!(p.get_sort_order()[0], ("album".to_owned(), false));
}

#[test]
fn shuffling_keeps_the_songs() {
    let lib = library(&[(1, &[]), (2, &[]), (3, &[]), (4, &[]), (5, &[])]);
    let mut tree = one_playlist("", &[1, 2, 3, 4, 5]);
    let p = tree.playlist_at_mut(0);
    p.refresh(&lib).unwrap();
    assert!(p.toggle_shuffle(&lib));
    let mut got = ids(p);
    got.sort();
    assert_eq!(got, vec![1, 2, 3, 4, 5]);
    assert!(!p.set_shuffle(true, &lib));
    assert!(p.set_shuffle(false, &lib));
    assert_eq!(ids(p), vec![1, 2, 3, 4, 5]);
}

#[test]
fn shuffling_moves_every_song() {
    let lib = library(&[(1, &[]), (2, &[]), (3, &[]), (4, &[]), (5, &[])]);
    let mut tree = one_playlist("", &[1, 2, 3, 4, 5]);
    let p = tree.playlist_at_mut(0);
    p.refresh(&lib).unwrap();
    for _ in 0..50 {
        assert!(p.set_shuffle(true, &lib));
        let got = ids(p);
        for (i, id) in got.iter().enumerate() {
            assert_ne!(*id, i as u64 + 1);
        }
        assert!(p.set_shuffle(false, &lib));
    }
}

#[test]
fn rules_add_matching_songs() {
    let lib = library(&[
        (1, &[("artist", "Loreena McKennitt"), ("title", "A")]),
        (2, &[("artist", "Someone"), ("title", "B")]),
        (3, &[("artist", "Loreena Mckennitt"), ("title", "C")]),
        (4, &[("artist", "Loreena McKennitt"), ("title", "D")]),
    ]);
    let mut tree = one_playlist("", &[2]);
    let p = tree.playlist_at_mut(0);
    assert_eq!(p.set_rule_code(&lib, "artist:contains \"McKennitt\"".to_owned()), Ok(()));
    assert_eq!(p.get_rule_code(), "artist:contains \"McKennitt\"");
    let mut got = ids(p);
    got.sort();
    assert_eq!(got, vec![1, 2, 4]);
}

#[test]
fn rule_helpers() {
    let lib = library(&[
        (1, &[("unchecked", "1")]),
        (2, &[("unchecked", "0")]),
        (3, &[]),
        (4, &[("title", "Bonus Track")]),
    ]);
    let mut tree = one_playlist("", &[]);
    let p = tree.playlist_at_mut(0);
    p.set_rule_code(&lib, "unchecked:set()".to_owned()).unwrap();
    assert_eq!(ids(p), vec![1]);
    p.set_rule_code(&lib, "unchecked:unset() and title:starts_with \"Bonus\"".to_owned()).unwrap();
    assert_eq!(ids(p), vec![4]);
    p.set_rule_code(&lib, "title:ends_with \"Track\"".to_owned()).unwrap();
    assert_eq!(ids(p), vec![4]);
}

#[test]
fn a_broken_rule_changes_nothing() {
    let lib = library(&[(1, &[]), (2, &[])]);
    let mut tree = one_playlist("", &[1]);
    let p = tree.playlist_at_mut(0);
    p.refresh(&lib).unwrap();
    assert!(p.set_rule_code(&lib, "artist:contains(".to_owned()).is_err());
    assert_eq!(p.get_rule_code(), "");
    assert_eq!(ids(p), vec![1]);
    assert!(Playlist::syntax_check_rule_code("title ==").is_err());
    assert!(Playlist::syntax_check_rule_code("title == \"x\"").is_ok());
    assert!(Playlist::syntax_check_rule_code("").is_ok());
    assert!(p.set_rule_code(&lib, "error(\"no\")".to_owned()).is_err());
}

#[test]
fn columns_change_with_rule() {
    let lib = library(&[(1, &[])]);
    let mut tree = one_playlist("", &[]);
    let p = tree.playlist_at_mut(0);
    let before = p.get_playlist_generation();
    let cols = vec![Column { tag: "title".to_owned(), width: 300 }];
    assert_eq!(p.set_rule_code_and_columns(&lib, "true".to_owned(), cols), Ok(()));
    assert_eq!(p.get_columns().len(), 1);
    assert_ne!(p.get_playlist_generation(), before);
    assert_eq!(ids(p), vec![1]);
    assert!(p.resize_column("title", 50));
    assert_eq!(p.get_columns()[0].width, 50);
    assert!(!p.resize_column("album", 50));
}

#[test]
fn manual_songs_refresh_when_changed() {
    let lib = library(&[(1, &[]), (2, &[])]);
    let mut tree = one_playlist("", &[1]);
    let p = tree.playlist_at_mut(0);
    p.refresh(&lib).unwrap();
    assert_eq!(p.set_manual_songs(&lib, vec![SongID::from_inner(1)]), None);
    assert_eq!(p.set_manual_songs(&lib, vec![SongID::from_inner(1), SongID::from_inner(2)]), Some(Ok(())));
    assert_eq!(ids(p), vec![1, 2]);
}

#[test]
fn name_and_playmode() {
    let mut tree = one_playlist("", &[]);
    let p = tree.playlist_at_mut(0);
    p.set_name("Road Trip".to_owned());
    assert_eq!(p.get_name(), "Road Trip");
    assert_eq!(p.bump_playmode(), Playmode::Loop);
    assert_eq!(p.get_playmode(), Playmode::Loop);
    p.set_playmode(Playmode::LoopOne);
    assert_eq!(p.get_playmode(), Playmode::LoopOne);
}

#[test]
fn maybe_refreshed_only_when_stale() {
    let mut lib = library(&[(1, &[])]);
    let mut tree = one_playlist("true", &[]);
    {
        let p = tree.playlist_at_mut(0);
        assert_eq!(p.maybe_refreshed(&lib), Ok(()));
        assert_eq!(ids(p), vec![1]);
    }
    add_new_song(&mut lib, SongID::from_inner(2), Metadata::new(), FileID::from_file(b"new"),
        SimilarityRec::new("new.mp3".to_owned(), 5, &Metadata::new()));
    let p = tree.playlist_at_mut(0);
    assert_eq!(p.maybe_refreshed(&lib), Ok(()));
    assert_eq!(ids(p), vec![1, 2]);
}

#[test]
fn selection_from_verdicts() {
    let lib = library(&[(1, &[]), (2, &[]), (3, &[])]);
    let manual = vec![SongID::from_inner(3), SongID::from_inner(8)];
    let picked = tsong::rules::select_songs(&lib, &manual, &vec![true, false, true]);
    let got: Vec<u64> = picked.iter().map(|s| s.as_inner()).collect();
    // the hand-added song found comes first; the rule's pick of it is not repeated
    assert_eq!(got, vec![3, 1]);
}

#[test]
fn rule_answers_become_verdicts_or_the_first_error() {
    assert_eq!(verdicts_from_answers(&vec![Ok(true), Ok(false)]), Ok(vec![true, false]));
    assert_eq!(verdicts_from_answers(&vec![]), Ok(vec![]));
    assert_eq!(verdicts_from_answers(&vec![Ok(true), Err("first".to_owned()), Err("second".to_owned())]),
        Err("first".to_owned()));
}

#[test]
fn rule_error_on_a_song_changes_nothing() {
    let lib = library(&[(1, &[("title", "A")]), (2, &[("title", "B")])]);
    let mut tree = one_playlist("", &[]);
    let p = tree.playlist_at_mut(0);
    p.refresh(&lib).unwrap();
    let before = ids(p);
    // compiles, but fails on the second song only
    assert!(p.set_rule_code(&lib, "title == \"A\" or error(\"no\")".to_owned()).is_err());
    assert_eq!(p.get_rule_code(), "");
    assert_eq!(ids(p), before);
}
