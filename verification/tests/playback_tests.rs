use tsong::metadata::Metadata;
use tsong::physical::FileID;
use tsong::logical::{SongID, SongLibrary, SimilarityRec, add_new_song};
use tsong::playlist::{PlaylistID, Playmode, default_columns, default_sort_order};
use tsong::tree::{PlaylistTree, add_playlist_from_db};
use tsong::playback::{PlaybackState, PlaybackStatus, PlaybackCommand, PlaybackError, NextChoice, choose_next, choose_prev};

fn sid(x: u64) -> SongID {
    SongID::from_inner(x)
}

fn setup(playmode: Playmode) -> (SongLibrary, PlaylistTree, PlaybackState) {
    let mut lib = SongLibrary::new();
    for i in 1..=3u64 {
        let mut m = Metadata::new();
        m.insert("track#".to_owned(), format!("{}", i));
        add_new_song(&mut lib, sid(i), m.clone(), FileID::from_file(format!("f{}", i).as_bytes()),
            SimilarityRec::new(format!("{}.mp3", i), 100, &m));
    }
    let mut tree = PlaylistTree::new();
    add_playlist_from_db(&mut tree, PlaylistID::from_inner(1), None, 0, "All".to_owned(), "true".to_owned(), false,
        playmode, Vec::new(), default_columns(), default_sort_order());
    let mut state = PlaybackState::new();
    state.set_future_playlist(Some(PlaylistID::from_inner(1)));
    (lib, tree, state)
}

#[test]
fn status_queries() {
    assert!(PlaybackStatus::Playing.is_playing());
    assert!(!PlaybackStatus::Paused.is_playing());
    assert_eq!(PlaybackStatus::default(), PlaybackStatus::Stopped);
    let mut s = PlaybackState::new();
    assert_eq!(s.get_playback_status(), PlaybackStatus::Stopped);
    assert!(s.toggle_mute());
    assert!(!s.toggle_mute());
    s.set_mute(true);
    assert!(s.muted);
}

#[test]
fn choosing_songs() {
    let songs = vec![sid(1), sid(2), sid(3)];
    assert_eq!(choose_next(&songs, None, Playmode::End, false), NextChoice::Song(Some(sid(1))));
    assert_eq!(choose_next(&songs, Some(sid(1)), Playmode::End, false), NextChoice::Song(Some(sid(2))));
    assert_eq!(choose_next(&songs, Some(sid(3)), Playmode::End, false), NextChoice::Song(None));
    assert_eq!(choose_next(&songs, Some(sid(3)), Playmode::Loop, false), NextChoice::Song(Some(sid(1))));
    assert_eq!(choose_next(&songs, Some(sid(3)), Playmode::Loop, true), NextChoice::Reshuffle);
    assert_eq!(choose_next(&songs, Some(sid(9)), Playmode::End, false), NextChoice::Song(Some(sid(1))));
    assert_eq!(choose_prev(&songs, Some(sid(2))), Some(sid(1)));
    assert_eq!(choose_prev(&songs, Some(sid(1))), None);
    assert_eq!(choose_prev(&songs, Some(sid(9))), None);
    // Prev undoes Next
    if let NextChoice::Song(Some(n)) = choose_next(&songs, Some(sid(2)), Playmode::End, false) {
        assert_eq!(choose_prev(&songs, Some(n)), Some(sid(2)));
    } else {
        panic!("expected a song");
    }
}

#[test]
fn play_from_nothing_starts_the_playlist() {
    let (lib, mut tree, mut s) = setup(Playmode::End);
    s.idle_command(PlaybackCommand::Play(None), &mut tree, &lib);
    assert_eq!(s.status, PlaybackStatus::Playing);
    assert_eq!(s.future_song, Some(sid(1)));
    assert_eq!(s.active_song, Some((sid(1), 0)));
}

#[test]
fn stop_then_play_starts_over() {
    let (lib, mut tree, mut s) = setup(Playmode::End);
    s.idle_command(PlaybackCommand::Play(Some(sid(2))), &mut tree, &lib);
    assert_eq!(s.status, PlaybackStatus::Playing);
    assert!(s.stream_command(PlaybackCommand::Stop, &mut tree, &lib));
    assert_eq!(s.stream_closed(), None);
    assert_eq!(s.future_song, None);
    assert_eq!(s.active_song, None);
    s.idle_command(PlaybackCommand::Play(None), &mut tree, &lib);
    assert_eq!(s.active_song, Some((sid(1), 0)));
    assert_eq!(s.status, PlaybackStatus::Playing);
}

#[test]
fn pause_then_play_resumes_where_heard() {
    let (lib, mut tree, mut s) = setup(Playmode::End);
    s.idle_command(PlaybackCommand::Play(Some(sid(1))), &mut tree, &lib);
    s.stream_opened();
    assert_eq!(s.song_playing(sid(1), 42_000, &lib), Ok(()));
    // decoding ran ahead into the next song
    s.future_song = Some(sid(2));
    assert!(s.stream_command(PlaybackCommand::Pause, &mut tree, &lib));
    assert_eq!(s.stream_closed(), Some(Ok(42_000)));
    assert_eq!(s.future_song, Some(sid(1)));
    assert!(!s.future_stream_open);
    s.idle_command(PlaybackCommand::Play(None), &mut tree, &lib);
    assert_eq!(s.status, PlaybackStatus::Playing);
    assert_eq!(s.active_song, Some((sid(1), 42_000)));
}

#[test]
fn prev_restarts_a_song_heard_long_enough() {
    let (lib, mut tree, mut s) = setup(Playmode::End);
    s.idle_command(PlaybackCommand::Play(Some(sid(2))), &mut tree, &lib);
    s.song_playing(sid(2), 6_000, &lib).unwrap();
    assert!(s.stream_command(PlaybackCommand::Prev, &mut tree, &lib));
    assert_eq!(s.active_song, Some((sid(2), 0)));
    assert_eq!(s.future_song, Some(sid(2)));
    s.song_playing(sid(2), 1_000, &lib).unwrap();
    assert!(s.stream_command(PlaybackCommand::Prev, &mut tree, &lib));
    assert_eq!(s.future_song, Some(sid(1)));
}

#[test]
fn next_at_the_end_stops_or_loops() {
    let (lib, mut tree, mut s) = setup(Playmode::End);
    s.idle_command(PlaybackCommand::Play(Some(sid(3))), &mut tree, &lib);
    assert!(!s.song_ended(false, &mut tree, &lib));
    assert_eq!(s.future_song, None);
    let (lib, mut tree, mut s) = setup(Playmode::Loop);
    s.idle_command(PlaybackCommand::Play(Some(sid(3))), &mut tree, &lib);
    s.song_ended(false, &mut tree, &lib);
    assert_eq!(s.future_song, Some(sid(1)));
    assert!(s.song_ended(true, &mut tree, &lib));
    assert_eq!(s.future_song, Some(sid(1)));
}

#[test]
fn reports_and_failures() {
    let (lib, mut tree, mut s) = setup(Playmode::End);
    assert_eq!(s.song_playing(sid(77), 0, &lib), Err(PlaybackError::SongNotInDatabase));
    assert_eq!(s.active_song, None);
    s.idle_command(PlaybackCommand::Play(Some(sid(1))), &mut tree, &lib);
    s.playback_finished();
    assert_eq!(s.status, PlaybackStatus::Stopped);
    let mut t = PlaybackState::new();
    t.status = PlaybackStatus::Playing;
    assert_eq!(t.playback_failed(), Some(Err(PlaybackError::NoHeardSong)));
    assert_eq!(t.status, PlaybackStatus::Paused);
    assert_eq!(PlaybackError::NoHeardSong.message(), "Resetting to heard point but there's no heard song?");
    s.stream_failed(&mut tree, &lib);
    assert_eq!(s.future_song, Some(sid(2)));
    s.nothing_to_play();
    assert_eq!(s.status, PlaybackStatus::Stopped);
}

#[test]
fn commands_while_waiting() {
    let (lib, mut tree, mut s) = setup(Playmode::End);
    s.idle_command(PlaybackCommand::Next, &mut tree, &lib);
    assert_eq!(s.future_song, Some(sid(1)));
    assert_eq!(s.active_song, Some((sid(1), 0)));
    assert_eq!(s.status, PlaybackStatus::Stopped);
    s.idle_command(PlaybackCommand::Next, &mut tree, &lib);
    assert_eq!(s.future_song, Some(sid(2)));
    s.idle_command(PlaybackCommand::Prev, &mut tree, &lib);
    assert_eq!(s.future_song, Some(sid(1)));
    s.status = PlaybackStatus::Playing;
    assert!(!s.pending_command(PlaybackCommand::Next, &mut tree, &lib));
    assert_eq!(s.future_song, Some(sid(2)));
    assert!(!s.pending_command(PlaybackCommand::Play(None), &mut tree, &lib));
    assert!(s.pending_command(PlaybackCommand::Pause, &mut tree, &lib));
    assert_eq!(s.status, PlaybackStatus::Paused);
}
