use tsong::physical::FileID;
use tsong::logical::SongID;
use tsong::playlist::{PlaylistID, Playmode};
use tsong::db::{SchemaStep, schema_steps, file_ids_to_blob, file_ids_from_blob, song_duration_from_db,
    playlist_order_from_db, rule_code_for_db, manual_ids_from_db, manual_ids_to_db, playlist_row,
    relative_paths_from_db, relative_paths_to_db, sort_order_from_db, sort_order_to_db};
use tsong::display::{pretty_duration, make_column_heading, playlist_stats_text};
use tsong::scan::skips_file_name;

#[test]
fn schema_upgrades() {
    assert_eq!(schema_steps(0), Some(vec![SchemaStep::CreateSchema]));
    assert_eq!(schema_steps(1), Some(vec![SchemaStep::Update1To2, SchemaStep::Update2To3]));
    assert_eq!(schema_steps(2), Some(vec![SchemaStep::Update2To3]));
    assert_eq!(schema_steps(3), Some(vec![]));
    assert_eq!(schema_steps(4), None);
    assert_eq!(schema_steps(-1), None);
}

#[test]
fn file_id_blobs_round_trip() {
    let ids = vec![FileID::from_file(b"a"), FileID::from_file(b"b"), FileID::from_file(b"c")];
    let blob = file_ids_to_blob(&ids);
    assert_eq!(blob.len(), 96);
    assert_eq!(&blob[32..64], &ids[1].as_bytes()[..]);
    assert_eq!(file_ids_from_blob(&blob), ids);
    // a partial id at the end is ignored
    let mut longer = blob.clone();
    longer.extend_from_slice(&[1, 2, 3]);
    assert_eq!(file_ids_from_blob(&longer), ids);
    assert!(file_ids_from_blob(&[]).is_empty());
}

#[test]
fn stored_defaults() {
    assert_eq!(song_duration_from_db(None), 296);
    assert_eq!(song_duration_from_db(Some(12)), 12);
    assert_eq!(song_duration_from_db(Some((1i64 << 32) + 5)), 5);
    assert_eq!(playlist_order_from_db(None), u64::MAX);
    assert_eq!(playlist_order_from_db(Some(3)), 3);
    assert_eq!(rule_code_for_db(""), None);
    assert_eq!(rule_code_for_db("true"), Some("true".to_owned()));
}

#[test]
fn manual_ids_as_json() {
    let ids = manual_ids_from_db(Some("[3, 1, 2]")).unwrap();
    assert_eq!(ids, vec![SongID::from_inner(3), SongID::from_inner(1), SongID::from_inner(2)]);
    assert_eq!(manual_ids_to_db(&ids), "[3,1,2]");
    assert_eq!(manual_ids_from_db(None).unwrap(), Vec::<SongID>::new());
    assert!(manual_ids_from_db(Some("[1, \"x\"]")).is_err());
    assert_eq!(manual_ids_to_db(&[]), "[]");
    let big = vec![SongID::from_inner(u64::MAX), SongID::from_inner(0), SongID::from_inner(42)];
    assert_eq!(manual_ids_from_db(Some(&manual_ids_to_db(&big))).unwrap(), big);
}

#[test]
fn playlist_rows() {
    let row = playlist_row(5, None, None, None, None, None, None).unwrap();
    assert_eq!(row.id, PlaylistID::from_inner(5));
    assert_eq!(row.parent_id, None);
    assert_eq!(row.parent_order, u64::MAX);
    assert_eq!(row.rule_code, "");
    assert!(row.manually_added_ids.is_empty());
    assert!(!row.shuffled);
    assert_eq!(row.playmode, Playmode::End);
    let row = playlist_row(6, Some(5), Some(2), Some("true".to_owned()), Some("[9]"), Some(true), Some(2)).unwrap();
    assert_eq!(row.parent_id, Some(PlaylistID::from_inner(5)));
    assert_eq!(row.parent_order, 2);
    assert_eq!(row.manually_added_ids, vec![SongID::from_inner(9)]);
    assert!(row.shuffled);
    assert_eq!(row.playmode, Playmode::LoopOne);
    assert!(playlist_row(7, None, None, None, Some("nope"), None, None).is_err());
}

#[test]
fn durations() {
    assert_eq!(pretty_duration(0), "0:00");
    assert_eq!(pretty_duration(65), "1:05");
    assert_eq!(pretty_duration(3599), "59:59");
    assert_eq!(pretty_duration(3600), "1:00:00");
    assert_eq!(pretty_duration(3725), "1:02:05");
    assert_eq!(pretty_duration(86400), "1:00:00:00");
    assert_eq!(pretty_duration(90061), "1:01:01:01");
}

#[test]
fn column_headings() {
    assert_eq!(make_column_heading("artist"), "Artist");
    assert_eq!(make_column_heading("track#"), "Track#");
    assert_eq!(make_column_heading("album_artist"), "Album Artist");
    assert_eq!(make_column_heading("__loop  start__"), "Loop  Start");
    assert_eq!(make_column_heading("duration"), "Time");
    assert_eq!(make_column_heading("über_ding"), "über Ding");
    assert_eq!(make_column_heading(""), "");
}

#[test]
fn scan_skips() {
    assert!(skips_file_name(".DS_Store"));
    assert!(skips_file_name("Icon\r"));
    assert!(skips_file_name("iTunes Music Library.xml"));
    assert!(skips_file_name("playlist.m3u"));
    assert!(skips_file_name("iTunes Library Extras.itdb"));
    assert!(skips_file_name("iTunes Library Genius"));
    assert!(!skips_file_name("iTunes Library Genius.mp3"));
    assert!(!skips_file_name("song.flac"));
}

#[test]
fn relative_paths_are_stored_as_json() {
    let paths = vec!["a/one.mp3".to_owned(), "say \"hi\".ogg".to_owned()];
    let text = relative_paths_to_db(&paths);
    assert_eq!(text, "[\"a/one.mp3\",\"say \\\"hi\\\".ogg\"]");
    assert_eq!(relative_paths_from_db(&text), Ok(paths));
    assert!(relative_paths_from_db("[1, 2]").is_err());
    assert_eq!(relative_paths_from_db("[]"), Ok(Vec::new()));
}

#[test]
fn sort_order_is_stored_as_json() {
    let order = vec![("album".to_owned(), false), ("track#".to_owned(), true)];
    let text = sort_order_to_db(&order);
    assert_eq!(text, "[[\"album\",false],[\"track#\",true]]");
    assert_eq!(sort_order_from_db(Some(&text)), Ok(order));
    assert!(sort_order_from_db(Some("{}")).is_err());
    let default = sort_order_from_db(None).unwrap();
    assert_eq!(default, vec![("disc#".to_owned(), false), ("track#".to_owned(), false),
        ("album".to_owned(), false), ("title".to_owned(), false)]);
}

#[test]
fn playlist_stats_line() {
    assert_eq!(playlist_stats_text(&[]), "No songs in playlist");
    assert_eq!(playlist_stats_text(&[75]), "1 song in playlist, total time 1:15");
    assert_eq!(playlist_stats_text(&[3600, 61]), "2 songs in playlist, total time 1:01:01");
    assert_eq!(playlist_stats_text(&[u32::MAX, 5]), "2 songs in playlist, total time really really long");
}
