//! The playback state: playing, paused or stopped; the song the user hears
//! and the one that will be decoded next; the playlist the next song comes
//! from. The decisions the playback thread makes in answer to commands and
//! to reports from the audio callback are made here; opening, decoding and
//! playing audio is left to the caller.

use vstd::prelude::*;
use crate::logical::{SongID, SongLibrary, has_song_id, find_song_by_song_id};
use crate::playlist::{PlaylistID, Playmode, PlaylistView, every_song_moved};
use crate::tree::{PlaylistTree, TreeView, ids_of, has_id, index_of, lemma_index_of};

verus! {

/// Whether a song is playing.
#[derive(Clone, Copy, Debug, PartialEq, Eq, Structural)]
pub enum PlaybackStatus {
    /// A song is playing. The user is hearing audio.
    Playing,
    /// A song was playing, but has been paused. `Play(None)` at this point
    /// will resume the selected song.
    Paused,
    /// No playback is happening and no song is selected.
    Stopped,
}

impl PlaybackStatus {
    /// True if playback is currently happening, false if it's paused or
    /// stopped.
    pub fn is_playing(&self) -> (r: bool)
        ensures
            r == (*self == PlaybackStatus::Playing),
    {
        *self == PlaybackStatus::Playing
    }
}

impl Default for PlaybackStatus {
    fn default() -> (r: PlaybackStatus)
        ensures
            r == PlaybackStatus::Stopped,
    {
        PlaybackStatus::Stopped
    }
}

/// A command from the user.
#[derive(Clone, Copy, Debug, PartialEq, Eq, Structural)]
pub enum PlaybackCommand {
    /// Start playing a song. If a song is provided, start at the beginning of
    /// the target song. If not, if playback is currently paused, resume it.
    /// If not, start playing the first song in the playlist.
    Play(Option<SongID>),
    /// Pause playback. A subsequent `Play(None)` will continue playback at
    /// the last point in the song that the user heard.
    Pause,
    /// Stop playback. The current song is discarded, and a subsequent
    /// `Play(None)` will start the playlist over.
    Stop,
    /// Go to the next song in the playlist. If the playlist is over, and
    /// looping is not enabled, same as `Stop`. Otherwise, if playback is
    /// currently not active, acts as if we paused at the beginning of the
    /// next song.
    Next,
    /// Go to the previous song in the playlist. If we're at the beginning of
    /// the playlist, or we're not near the beginning of a song, starts the
    /// current song over. If playback is currently not active, acts as if we
    /// paused at the beginning of whatever song gets picked.
    Prev,
}

/// What went wrong while following playback.
#[derive(Clone, Copy, Debug, PartialEq, Eq, Structural)]
pub enum PlaybackError {
    /// The audio callback reported a song that the library does not have.
    SongNotInDatabase,
    /// Playback was to resume where the user stopped hearing, but nothing
    /// was heard.
    NoHeardSong,
}

impl PlaybackError {
    /// A message describing the error.
    pub fn message(&self) -> (r: &'static str)
        ensures
            r@ == (match self {
                PlaybackError::SongNotInDatabase => "Playback changed to a song not in the database!"@,
                PlaybackError::NoHeardSong => "Resetting to heard point but there's no heard song?"@,
            }),
    {
        match self {
            PlaybackError::SongNotInDatabase => "Playback changed to a song not in the database!",
            PlaybackError::NoHeardSong => "Resetting to heard point but there's no heard song?",
        }
    }
}

/// How far into a song (in milliseconds) `Prev` starts the song over
/// instead of going to the previous one.
pub const PREV_RESTART_MS: u64 = 5000;

/// The playback state. Times are in milliseconds from the start of a song.
pub struct PlaybackState {
    /// The song the user is hearing now, and how far into it.
    pub active_song: Option<(SongID, u64)>,
    /// The song the user will be hearing once everything queued is played:
    /// the one being decoded.
    pub future_song: Option<SongID>,
    /// Whether the decoder for `future_song` is open. When this becomes false
    /// the caller closes the decoder; the next decoding opens it again.
    pub future_stream_open: bool,
    /// The playlist the next song is drawn from.
    pub future_playlist: Option<PlaylistID>,
    /// What the playback thread is doing.
    pub status: PlaybackStatus,
    /// Whether we pretend the volume is zero.
    pub muted: bool,
}

/// What `next_song` decided.
#[derive(Clone, Copy, Debug, PartialEq, Eq, Structural)]
pub enum NextChoice {
    /// Play this song next (none: playback ends).
    Song(Option<SongID>),
    /// The looping, shuffled playlist is over: shuffle it again and start
    /// from its first song.
    Reshuffle,
}

/// `i` is the first position of `id` in `songs`.
pub open spec fn is_first_song(songs: Seq<SongID>, id: SongID, i: int) -> bool {
    &&& 0 <= i < songs.len()
    &&& songs[i] == id
    &&& forall|j: int| 0 <= j < i ==> #[trigger] songs[j] != id
}

/// The position of the current song in the playlist, if it is there.
pub open spec fn current_position(songs: Seq<SongID>, current: Option<SongID>) -> Option<int> {
    match current {
        Some(id) => if exists|i: int| #[trigger] is_first_song(songs, id, i) {
            Some(choose|i: int| #[trigger] is_first_song(songs, id, i))
        } else {
            None
        },
        None => None,
    }
}

/// The first song of the playlist, if any.
pub open spec fn first_song(songs: Seq<SongID>) -> Option<SongID> {
    if songs.len() > 0 { Some(songs[0]) } else { None }
}

/// The song after `current` in a playlist with songs `songs`: the first one
/// if `current` is not in it; after the last one, none if the playlist does
/// not loop, a new shuffle if it loops shuffled, else the first one.
pub open spec fn next_choice(songs: Seq<SongID>, current: Option<SongID>, playmode: Playmode, shuffled: bool) -> NextChoice {
    match current_position(songs, current) {
        None => NextChoice::Song(first_song(songs)),
        Some(x) => if x == songs.len() - 1 {
            if playmode == Playmode::End {
                NextChoice::Song(None)
            } else if shuffled {
                NextChoice::Reshuffle
            } else {
                NextChoice::Song(first_song(songs))
            }
        } else {
            NextChoice::Song(Some(songs[x + 1]))
        },
    }
}

/// The song before `current`, or none to start the current one over (when
/// it is the first, or not in the playlist).
pub open spec fn prev_choice(songs: Seq<SongID>, current: Option<SongID>) -> Option<SongID> {
    match current_position(songs, current) {
        None => None,
        Some(x) => if x == 0 { None } else { Some(songs[x - 1]) },
    }
}

/// The first position of `id` in `songs`, if any.
fn position_of(songs: &[SongID], id: SongID) -> (r: Option<usize>)
    ensures
        match r {
            Some(i) => current_position(songs@, Some(id)) == Some(i as int),
            None => current_position(songs@, Some(id)) is None,
        },
{
    let mut i: usize = 0;
    while i < songs.len()
        invariant
            i <= songs@.len(),
            forall|j: int| 0 <= j < i ==> #[trigger] songs@[j] != id,
        decreases songs.len() - i,
    {
        if songs[i] == id {
            proof {
                assert(is_first_song(songs@, id, i as int));
                let k = choose|k: int| #[trigger] is_first_song(songs@, id, k);
                if k < i {
                    assert(songs@[k] != id);
                } else if k > i {
                    assert(songs@[i as int] != id);
                }
            }
            return Some(i);
        }
        i += 1;
    }
    proof {
        assert forall|k: int| !#[trigger] is_first_song(songs@, id, k) by {
            if 0 <= k < songs@.len() {
                assert(songs@[k] != id);
            }
        }
    }
    None
}

/// Decides the song after `current` (see `next_choice`).
pub fn choose_next(songs: &[SongID], current: Option<SongID>, playmode: Playmode, shuffled: bool) -> (r: NextChoice)
    ensures
        r == next_choice(songs@, current, playmode, shuffled),
{
    let pos = match current {
        Some(id) => position_of(songs, id),
        None => None,
    };
    match pos {
        None => NextChoice::Song(if songs.len() > 0 { Some(songs[0]) } else { None }),
        Some(x) => if x == songs.len() - 1 {
            if playmode == Playmode::End {
                NextChoice::Song(None)
            } else if shuffled {
                NextChoice::Reshuffle
            } else {
                NextChoice::Song(Some(songs[0]))
            }
        } else {
            NextChoice::Song(Some(songs[x + 1]))
        },
    }
}

/// Decides the song before `current` (see `prev_choice`).
pub fn choose_prev(songs: &[SongID], current: Option<SongID>) -> (r: Option<SongID>)
    ensures
        r == prev_choice(songs@, current),
{
    let pos = match current {
        Some(id) => position_of(songs, id),
        None => None,
    };
    match pos {
        None => None,
        Some(x) => if x == 0 { None } else { Some(songs[x - 1]) },
    }
}

/// The playlist a state draws from, as found in the tree.
pub open spec fn drawn_from(t: TreeView, p: Option<PlaylistID>) -> bool {
    p is Some && has_id(ids_of(t.playlists), p->0)
}

/// The position of the playlist a state draws from.
pub open spec fn drawn_index(t: TreeView, p: Option<PlaylistID>) -> int {
    index_of(ids_of(t.playlists), p->0)
}

/// Only the songs of the playlist changed (by refreshing or sorting).
pub open spec fn songs_updated(before: PlaylistView, after: PlaylistView) -> bool {
    after == (PlaylistView {
        library_generation: after.library_generation,
        contents: after.contents,
        songs: after.songs,
        generation: after.generation,
        ..before
    })
}

/// The tree after the playlist at `i` changed only its songs.
pub open spec fn tree_songs_updated(before: TreeView, after: TreeView, i: int) -> bool {
    &&& after.top_level == before.top_level
    &&& after.playlists.len() == before.playlists.len()
    &&& forall|j: int| 0 <= j < before.playlists.len() && j != i ==> #[trigger] after.playlists[j] == before.playlists[j]
    &&& songs_updated(before.playlists[i], after.playlists[i])
}

/// The result of picking a song with `next_song` from a playlist that is
/// `pv` once refreshed and `after` at the end: the choice is the one
/// `next_choice` makes on the refreshed songs. A song choice leaves the
/// playlist as it is; a reshuffle (after the last song of a shuffled, looping
/// playlist) shuffles its songs anew, moving every one, and starts again
/// from the first.
pub open spec fn next_taken(choice: NextChoice, pv: PlaylistView, after: PlaylistView, old_future: Option<SongID>,
    new_future: Option<SongID>) -> bool {
    &&& choice == next_choice(pv.songs, old_future, pv.playmode, pv.shuffled)
    &&& match choice {
        NextChoice::Song(s) => new_future == s && after == pv,
        NextChoice::Reshuffle => {
            &&& new_future == first_song(after.songs)
            &&& after.songs.to_multiset() == pv.songs.to_multiset()
            &&& every_song_moved(pv.contents, after.songs)
            &&& after == (PlaylistView { songs: after.songs, generation: after.generation, ..pv })
        },
    }
}

/// What `next_song` does: without a playlist drawn from (or one the tree
/// lacks) nothing; otherwise the playlist's songs may be refreshed or
/// shuffled again, the next song is picked and the decoder is closed.
pub open spec fn next_song_effect(s0: PlaybackState, t0: TreeView, s1: PlaybackState, t1: TreeView, r: Option<NextChoice>) -> bool {
    if !drawn_from(t0, s0.future_playlist) {
        r is None && s1 == s0 && t1 == t0
    } else {
        let i = drawn_index(t0, s0.future_playlist);
        &&& r is Some
        &&& tree_songs_updated(t0, t1, i)
        &&& exists|tm: TreeView| #[trigger] tree_songs_updated(t0, tm, i) && tree_songs_updated(tm, t1, i)
            && next_taken(r->0, tm.playlists[i], t1.playlists[i], s0.future_song, s1.future_song)
        &&& s1 == (PlaybackState { future_song: s1.future_song, future_stream_open: false, ..s0 })
    }
}

/// What `prev_song` does: without a playlist drawn from (or one the tree
/// lacks) nothing; otherwise the playlist's songs may be refreshed, the
/// previous song is picked (or the current one kept, to start it over) and
/// the decoder is closed.
pub open spec fn prev_song_effect(s0: PlaybackState, t0: TreeView, s1: PlaybackState, t1: TreeView) -> bool {
    if !drawn_from(t0, s0.future_playlist) {
        s1 == s0 && t1 == t0
    } else {
        let i = drawn_index(t0, s0.future_playlist);
        let pv = t1.playlists[i];
        &&& tree_songs_updated(t0, t1, i)
        &&& s1 == (PlaybackState {
            future_song: match prev_choice(pv.songs, s0.future_song) {
                Some(s) => Some(s),
                None => s0.future_song,
            },
            future_stream_open: false,
            ..s0
        })
    }
}

/// The state right after `next_song` or `prev_song`, given the state `s1`
/// a command ends in: the command then only set the active song (and closed
/// the decoder).
pub open spec fn after_step(s0: PlaybackState, t0: TreeView, s1: PlaybackState) -> PlaybackState {
    PlaybackState {
        active_song: s0.active_song,
        future_stream_open: if drawn_from(t0, s0.future_playlist) { false } else { s0.future_stream_open },
        ..s1
    }
}

/// The state right after `next_song`, given the state `s1` a `Play(None)`
/// ends in: the command then only set the active song and the status.
pub open spec fn before_resume(s0: PlaybackState, s1: PlaybackState) -> PlaybackState {
    PlaybackState { active_song: s0.active_song, status: s0.status, ..s1 }
}

/// The song the user hears, if any.
pub open spec fn heard_song(active: Option<(SongID, u64)>) -> Option<SongID> {
    match active {
        Some((song, _)) => Some(song),
        None => None,
    }
}

/// The state with the song the user hears selected again (its decoder
/// closed), so that `Next` goes to the song after the one heard.
pub open spec fn back_to_heard(s0: PlaybackState) -> PlaybackState {
    PlaybackState { future_song: heard_song(s0.active_song), future_stream_open: false, ..s0 }
}

/// The state with the selected song's decoder dropped.
pub open spec fn stream_dropped(s0: PlaybackState) -> PlaybackState {
    PlaybackState { future_stream_open: false, ..s0 }
}

/// What `pending_command` does with a command other than `Next`.
pub open spec fn pending_command_effect(cmd: PlaybackCommand, s0: PlaybackState, t0: TreeView, s1: PlaybackState, t1: TreeView) -> bool {
    match cmd {
        PlaybackCommand::Stop => t1 == t0 && s1 == (PlaybackState {
            status: PlaybackStatus::Stopped,
            future_song: None,
            future_stream_open: false,
            ..s0
        }),
        PlaybackCommand::Pause => t1 == t0 && s1 == (PlaybackState { status: PlaybackStatus::Paused, ..s0 }),
        PlaybackCommand::Play(Some(song)) => t1 == t0 && s1 == (PlaybackState {
            future_song: Some(song),
            future_stream_open: false,
            ..s0
        }),
        PlaybackCommand::Play(None) => t1 == t0 && s1 == s0,
        PlaybackCommand::Next => exists|r: Option<NextChoice>| #[trigger] next_song_effect(s0, t0, s1, t1, r),
        PlaybackCommand::Prev => {
            &&& !s1.future_stream_open
            &&& restarts(s0.active_song) ==> t1 == t0 && s1 == (PlaybackState {
                active_song: restarted(s0.active_song),
                future_song: heard_song(s0.active_song),
                future_stream_open: false,
                ..s0
            })
            &&& !restarts(s0.active_song) ==> prev_song_effect(s0, t0, PlaybackState { future_stream_open: s1.future_stream_open, ..s1 }, t1)
                || (!drawn_from(t0, s0.future_playlist) && t1 == t0 && s1 == (PlaybackState { future_stream_open: false, ..s0 }))
        },
    }
}

/// The active song when a song starts from its beginning.
pub open spec fn from_start(future: Option<SongID>) -> Option<(SongID, u64)> {
    match future {
        Some(s) => Some((s, 0u64)),
        None => None,
    }
}

/// The active song, started over.
pub open spec fn restarted(active: Option<(SongID, u64)>) -> Option<(SongID, u64)> {
    match active {
        Some((song, _)) => Some((song, 0u64)),
        None => None,
    }
}

/// The user is far enough into the active song that `Prev` starts it over.
pub open spec fn restarts(active: Option<(SongID, u64)>) -> bool {
    match active {
        Some((_, heard)) => heard >= PREV_RESTART_MS,
        None => false,
    }
}

/// With no song selected (as after `Stop`), `next_song` selects the first
/// song of the playlist: `Play(None)` starts the playlist over.
pub proof fn law_next_from_nothing_is_first(s0: PlaybackState, t0: TreeView, s1: PlaybackState, t1: TreeView, r: Option<NextChoice>)
    requires
        next_song_effect(s0, t0, s1, t1, r),
        s0.future_song is None,
        drawn_from(t0, s0.future_playlist),
    ensures
        s1.future_song == first_song(t1.playlists[drawn_index(t0, s0.future_playlist)].songs),
{
}

/// No song is ordered twice in the playlist.
pub open spec fn songs_unique(songs: Seq<SongID>) -> bool {
    forall|i: int, j: int| 0 <= i < songs.len() && 0 <= j < songs.len() && i != j ==> #[trigger] songs[i] != #[trigger] songs[j]
}

/// In a playlist holding each song once, the song after one that is not
/// the last is the next one in order, and the song before that one is the
/// first again: `Prev` undoes `Next`.
pub proof fn law_prev_undoes_next(songs: Seq<SongID>, x: int, playmode: Playmode, shuffled: bool)
    requires
        songs_unique(songs),
        0 <= x < songs.len() - 1,
    ensures
        next_choice(songs, Some(songs[x]), playmode, shuffled) == NextChoice::Song(Some(songs[x + 1])),
        prev_choice(songs, Some(songs[x + 1])) == Some(songs[x]),
{
    assert(is_first_song(songs, songs[x], x)) by {
        assert forall|j: int| 0 <= j < x implies #[trigger] songs[j] != songs[x] by {
            assert(songs[j] != songs[x]);
        }
    }
    let k = choose|i: int| #[trigger] is_first_song(songs, songs[x], i);
    if k != x {
        assert(songs[k] != songs[x]);
    }
    assert(current_position(songs, Some(songs[x])) == Some(x));
    assert(is_first_song(songs, songs[x + 1], x + 1)) by {
        assert forall|j: int| 0 <= j < x + 1 implies #[trigger] songs[j] != songs[x + 1] by {
            assert(songs[j] != songs[x + 1]);
        }
    }
    let k2 = choose|i: int| #[trigger] is_first_song(songs, songs[x + 1], i);
    if k2 != x + 1 {
        assert(songs[k2] != songs[x + 1]);
    }
    assert(current_position(songs, Some(songs[x + 1])) == Some(x + 1));
}

/// At the end of a playlist that does not loop, `Next` selects no song, so
/// playback ends.
pub proof fn law_next_at_end_stops(songs: Seq<SongID>, shuffled: bool)
    requires
        songs_unique(songs),
        songs.len() > 0,
    ensures
        next_choice(songs, Some(songs.last()), Playmode::End, shuffled) == NextChoice::Song(None),
{
    let x = songs.len() - 1;
    assert(is_first_song(songs, songs[x], x)) by {
        assert forall|j: int| 0 <= j < x implies #[trigger] songs[j] != songs[x] by {
            assert(songs[j] != songs[x]);
        }
    }
    let k = choose|i: int| #[trigger] is_first_song(songs, songs[x], i);
    if k != x {
        assert(songs[k] != songs[x]);
    }
    assert(current_position(songs, Some(songs.last())) == Some(x));
}

/// After the last song of a playlist holding each song once, a looping
/// playlist (any playmode but `End`) never stops: it is shuffled again if
/// it is shuffled, and otherwise starts over from its first song.
pub proof fn law_looping_wraps_at_end(songs: Seq<SongID>, playmode: Playmode, shuffled: bool)
    requires
        songs_unique(songs),
        songs.len() > 0,
        playmode != Playmode::End,
    ensures
        next_choice(songs, Some(songs.last()), playmode, shuffled)
            == if shuffled { NextChoice::Reshuffle } else { NextChoice::Song(Some(songs[0])) },
{
    let x = songs.len() - 1;
    assert(is_first_song(songs, songs[x], x)) by {
        assert forall|j: int| 0 <= j < x implies #[trigger] songs[j] != songs[x] by {
            assert(songs[j] != songs[x]);
        }
    }
    let k = choose|i: int| #[trigger] is_first_song(songs, songs[x], i);
    if k != x {
        assert(songs[k] != songs[x]);
    }
    assert(current_position(songs, Some(songs.last())) == Some(x));
}

impl PlaybackState {
    /// The state before anything was played: stopped, no songs, no playlist,
    /// not muted.
    pub fn new() -> (s: PlaybackState)
        ensures
            s == (PlaybackState {
                active_song: None,
                future_song: None,
                future_stream_open: false,
                future_playlist: None,
                status: PlaybackStatus::Stopped,
                muted: false,
            }),
    {
        PlaybackState {
            active_song: None,
            future_song: None,
            future_stream_open: false,
            future_playlist: None,
            status: PlaybackStatus::Stopped,
            muted: false,
        }
    }

    /// Selects a different playlist to draw the next song from, without
    /// changing the active song.
    pub fn set_future_playlist(&mut self, new_playlist: Option<PlaylistID>)
        ensures
            *final(self) == (PlaybackState { future_playlist: new_playlist, ..*old(self) }),
    {
        self.future_playlist = new_playlist;
    }

    /// The playlist the next song is drawn from, if there is one.
    pub fn get_future_playlist(&self) -> (r: Option<PlaylistID>)
        ensures
            r == self.future_playlist,
    {
        self.future_playlist
    }

    /// The current playback status.
    pub fn get_playback_status(&self) -> (r: PlaybackStatus)
        ensures
            r == self.status,
    {
        self.status
    }

    /// The song the user is hearing now, and how far into it.
    pub fn get_active_song(&self) -> (r: Option<(SongID, u64)>)
        ensures
            r == self.active_song,
    {
        self.active_song
    }

    /// The playback status and the active song, together.
    pub fn get_status_and_active_song(&self) -> (r: (PlaybackStatus, Option<(SongID, u64)>))
        ensures
            r == (self.status, self.active_song),
    {
        (self.status, self.active_song)
    }

    /// Toggles mute; returns whether mute is now active.
    pub fn toggle_mute(&mut self) -> (r: bool)
        ensures
            r == !old(self).muted,
            *final(self) == (PlaybackState { muted: r, ..*old(self) }),
    {
        self.muted = !self.muted;
        self.muted
    }

    /// Sets the mute state.
    pub fn set_mute(&mut self, nu: bool)
        ensures
            *final(self) == (PlaybackState { muted: nu, ..*old(self) }),
    {
        self.muted = nu;
    }

    /// Goes to the next song of the playlist drawn from (refreshing it
    /// first), which may loop or shuffle it again; the decoder is closed.
    /// Without a playlist (or with one the tree does not have), nothing
    /// changes and `None` is returned.
    pub fn next_song(&mut self, tree: &mut PlaylistTree, lib: &SongLibrary) -> (r: Option<NextChoice>)
        ensures
            next_song_effect(*old(self), old(tree)@, *final(self), final(tree)@, r),
    {
        let pid = match self.future_playlist {
            Some(p) => p,
            None => return None,
        };
        let pi = match tree.find(pid) {
            Some(i) => i,
            None => return None,
        };
        let ghost t0 = tree@;
        let _ = tree.playlist_at_mut(pi).maybe_refreshed(lib);
        let ghost tm = tree@;
        tree.playlist_at(pi).check_songs();
        let choice = {
            let p = tree.playlist_at(pi);
            choose_next(p.get_songs(), self.future_song, p.get_playmode(), p.is_shuffled())
        };
        match choice {
            NextChoice::Song(s) => {
                self.future_song = s;
            },
            NextChoice::Reshuffle => {
                tree.playlist_at_mut(pi).resort(lib);
                let songs = tree.playlist_at(pi).get_songs();
                self.future_song = if songs.len() > 0 { Some(songs[0]) } else { None };
            },
        }
        self.future_stream_open = false;
        proof {
            assert forall|j: int| 0 <= j < t0.playlists.len() && j != pi implies #[trigger] tree@.playlists[j] == t0.playlists[j] by {}
            assert forall|j: int| 0 <= j < t0.playlists.len() && j != pi implies #[trigger] tm.playlists[j] == t0.playlists[j] by {}
            assert(tree_songs_updated(t0, tm, pi as int));
            assert(tree_songs_updated(tm, tree@, pi as int));
            assert(drawn_index(t0, old(self).future_playlist) == pi);
            assert(tree_songs_updated(t0, tm, pi as int) && tree_songs_updated(tm, tree@, pi as int)
                && next_taken(choice, tm.playlists[pi as int], tree@.playlists[pi as int], old(self).future_song, self.future_song));
        }
        Some(choice)
    }

    /// Goes to the previous song of the playlist drawn from (refreshing it
    /// first), or keeps the song to start it over if it is the first or not
    /// in the playlist; the decoder is closed. Without a playlist (or with
    /// one the tree does not have), nothing changes.
    pub fn prev_song(&mut self, tree: &mut PlaylistTree, lib: &SongLibrary)
        ensures
            prev_song_effect(*old(self), old(tree)@, *final(self), final(tree)@),
    {
        let pid = match self.future_playlist {
            Some(p) => p,
            None => return,
        };
        let pi = match tree.find(pid) {
            Some(i) => i,
            None => return,
        };
        let ghost t0 = tree@;
        let _ = tree.playlist_at_mut(pi).maybe_refreshed(lib);
        let prev = choose_prev(tree.playlist_at(pi).get_songs(), self.future_song);
        match prev {
            Some(s) => {
                self.future_song = Some(s);
            },
            None => {},
        }
        self.future_stream_open = false;
        proof {
            assert forall|j: int| 0 <= j < t0.playlists.len() && j != pi implies #[trigger] tree@.playlists[j] == t0.playlists[j] by {}
        }
    }

    fn from_start_of_future(&mut self)
        ensures
            *final(self) == (PlaybackState { active_song: from_start(old(self).future_song), ..*old(self) }),
    {
        self.active_song = match self.future_song {
            Some(s) => Some((s, 0)),
            None => None,
        };
    }

    /// Answers a command while nothing is playing.
    /// - `Play(Some(song))` plays that song from its start.
    /// - `Play(None)` resumes the selected song, or, if there is none, picks
    ///   the next song of the playlist; it plays if there is a song to hear,
    ///   else playback stops.
    /// - `Next` and `Prev` select the next or previous song (or, `Prev` far
    ///   enough into a song, its start) without starting playback.
    /// - `Pause` and `Stop` change nothing.
    pub fn idle_command(&mut self, cmd: PlaybackCommand, tree: &mut PlaylistTree, lib: &SongLibrary)
        ensures
            match cmd {
                PlaybackCommand::Pause | PlaybackCommand::Stop => *final(self) == *old(self) && final(tree)@ == old(tree)@,
                PlaybackCommand::Play(Some(song)) => final(tree)@ == old(tree)@ && *final(self) == (PlaybackState {
                    status: PlaybackStatus::Playing,
                    future_stream_open: false,
                    future_song: Some(song),
                    active_song: Some((song, 0u64)),
                    ..*old(self)
                }),
                PlaybackCommand::Play(None) => {
                    &&& old(self).future_song is Some ==> final(tree)@ == old(tree)@
                        && *final(self) == (PlaybackState { status: final(self).status, ..*old(self) })
                    &&& old(self).future_song is None ==> final(self).active_song == from_start(final(self).future_song)
                        && exists|r: Option<NextChoice>| #[trigger] next_song_effect(*old(self), old(tree)@,
                            before_resume(*old(self), *final(self)), final(tree)@, r)
                    &&& final(self).status == if final(self).active_song is Some { PlaybackStatus::Playing } else { PlaybackStatus::Stopped }
                },
                PlaybackCommand::Next => {
                    &&& final(self).active_song == from_start(final(self).future_song)
                    &&& !final(self).future_stream_open
                    &&& exists|r: Option<NextChoice>| #[trigger] next_song_effect(*old(self), old(tree)@,
                        after_step(*old(self), old(tree)@, *final(self)), final(tree)@, r)
                },
                PlaybackCommand::Prev => {
                    &&& !final(self).future_stream_open
                    &&& restarts(old(self).active_song) ==> final(tree)@ == old(tree)@ && *final(self) == (PlaybackState {
                        active_song: restarted(old(self).active_song),
                        future_stream_open: false,
                        ..*old(self)
                    })
                    &&& !restarts(old(self).active_song) ==> final(self).active_song == from_start(final(self).future_song)
                        && prev_song_effect(*old(self), old(tree)@, after_step(*old(self), old(tree)@, *final(self)), final(tree)@)
                },
            },
    {
        match cmd {
            PlaybackCommand::Pause | PlaybackCommand::Stop => {},
            PlaybackCommand::Play(Some(song)) => {
                self.status = PlaybackStatus::Playing;
                self.future_stream_open = false;
                self.future_song = Some(song);
                self.active_song = Some((song, 0));
            },
            PlaybackCommand::Play(None) => {
                if self.future_song.is_none() {
                    let r = self.next_song(tree, lib);
                    self.from_start_of_future();
                }
                self.status = match self.active_song {
                    Some(_) => PlaybackStatus::Playing,
                    None => PlaybackStatus::Stopped,
                };
            },
            PlaybackCommand::Next => {
                let r = self.next_song(tree, lib);
                self.from_start_of_future();
                self.future_stream_open = false;
            },
            PlaybackCommand::Prev => {
                match self.active_song {
                    Some((song, when)) if when >= PREV_RESTART_MS => {
                        self.active_song = Some((song, 0));
                    },
                    _ => {
                        self.prev_song(tree, lib);
                        self.from_start_of_future();
                    },
                }
                self.future_stream_open = false;
            },
        }
    }

    /// `Prev` while playing: far enough into the active song it is started
    /// over (and decoded anew from its start); otherwise the previous song is
    /// picked. The decoder is closed either way.
    fn prev_while_playing(&mut self, tree: &mut PlaylistTree, lib: &SongLibrary)
        ensures
            !final(self).future_stream_open,
            restarts(old(self).active_song) ==> final(tree)@ == old(tree)@ && *final(self) == (PlaybackState {
                active_song: restarted(old(self).active_song),
                future_song: heard_song(old(self).active_song),
                future_stream_open: false,
                ..*old(self)
            }),
            !restarts(old(self).active_song) ==> prev_song_effect(*old(self), old(tree)@,
                PlaybackState { future_stream_open: final(self).future_stream_open, ..*final(self) }, final(tree)@)
                || (!drawn_from(old(tree)@, old(self).future_playlist) && final(tree)@ == old(tree)@
                    && *final(self) == (PlaybackState { future_stream_open: false, ..*old(self) })),
    {
        self.future_stream_open = false;
        match self.active_song {
            Some((song, when)) if when >= PREV_RESTART_MS => {
                self.active_song = Some((song, 0));
                self.future_song = Some(song);
            },
            _ => {
                self.prev_song(tree, lib);
            },
        }
    }

    /// Answers a command that was waiting when playback started, before the
    /// audio stream is opened. Returns true when playback stopped or paused
    /// (no further waiting command is then looked at).
    /// - `Stop` stops and forgets the selected song; `Pause` pauses.
    /// - `Play(Some(song))` selects that song; `Play(None)` does nothing.
    /// - `Next` selects the next song.
    /// - `Prev` starts the heard song over if far enough into it, else
    ///   selects the previous song.
    pub fn pending_command(&mut self, cmd: PlaybackCommand, tree: &mut PlaylistTree, lib: &SongLibrary) -> (stop: bool)
        ensures
            stop == (cmd == PlaybackCommand::Stop || cmd == PlaybackCommand::Pause),
            pending_command_effect(cmd, *old(self), old(tree)@, *final(self), final(tree)@),
    {
        match cmd {
            PlaybackCommand::Stop => {
                self.status = PlaybackStatus::Stopped;
                self.future_song = None;
                self.future_stream_open = false;
                true
            },
            PlaybackCommand::Pause => {
                self.status = PlaybackStatus::Paused;
                true
            },
            PlaybackCommand::Play(Some(song)) => {
                self.future_song = Some(song);
                self.future_stream_open = false;
                false
            },
            PlaybackCommand::Play(None) => false,
            PlaybackCommand::Next => {
                let r = self.next_song(tree, lib);
                false
            },
            PlaybackCommand::Prev => {
                self.prev_while_playing(tree, lib);
                false
            },
        }
    }

    /// Answers a command while the audio stream is playing. Returns true
    /// when the stream must be closed (every command but `Play(None)`).
    /// - `Stop` stops and forgets the selected song; `Pause` pauses.
    /// - `Play(Some(song))` selects that song.
    /// - `Next` selects the song after the one the user hears.
    /// - `Prev` starts the heard song over if far enough into it, else
    ///   selects the previous song.
    pub fn stream_command(&mut self, cmd: PlaybackCommand, tree: &mut PlaylistTree, lib: &SongLibrary) -> (close: bool)
        ensures
            close == (cmd != PlaybackCommand::Play(None)),
            match cmd {
                PlaybackCommand::Next => exists|r: Option<NextChoice>| #[trigger] next_song_effect(
                    back_to_heard(*old(self)), old(tree)@, *final(self), final(tree)@, r),
                _ => pending_command_effect(cmd, *old(self), old(tree)@, *final(self), final(tree)@),
            },
    {
        match cmd {
            PlaybackCommand::Play(Some(song)) => {
                self.future_song = Some(song);
                self.future_stream_open = false;
                true
            },
            PlaybackCommand::Next => {
                self.future_stream_open = false;
                self.future_song = match self.active_song {
                    Some((song, _)) => Some(song),
                    None => None,
                };
                let r = self.next_song(tree, lib);
                true
            },
            PlaybackCommand::Play(None) => false,
            _ => {
                self.pending_command(cmd, tree, lib);
                true
            },
        }
    }

    /// The audio callback reports that the user hears `song_id`, `time_ms`
    /// into it (already moved forward to now). The active song becomes that
    /// song at that time; a song the library does not have is an error, and
    /// nothing changes.
    pub fn song_playing(&mut self, song_id: SongID, time_ms: u64, lib: &SongLibrary) -> (r: Result<(), PlaybackError>)
        ensures
            heard_song(old(self).active_song) == Some(song_id) ==> r is Ok
                && *final(self) == (PlaybackState { active_song: Some((song_id, time_ms)), ..*old(self) }),
            heard_song(old(self).active_song) != Some(song_id) ==> {
                &&& r is Ok <==> has_song_id(lib.songs(), song_id)
                &&& r is Ok ==> *final(self) == (PlaybackState { active_song: Some((song_id, time_ms)), ..*old(self) })
                &&& r is Err ==> r == Err::<(), PlaybackError>(PlaybackError::SongNotInDatabase) && *final(self) == *old(self)
            },
    {
        let change_song = match self.active_song {
            Some((song, _)) => song != song_id,
            None => true,
        };
        if change_song {
            match find_song_by_song_id(lib, song_id) {
                Some(_) => {},
                None => return Err(PlaybackError::SongNotInDatabase),
            }
        }
        self.active_song = Some((song_id, time_ms));
        Ok(())
    }

    /// The audio callback reports that the user heard the end of playback:
    /// playing stops (a pause or stop already made stays).
    pub fn playback_finished(&mut self)
        ensures
            *final(self) == (PlaybackState {
                status: if old(self).status == PlaybackStatus::Playing { PlaybackStatus::Stopped } else { old(self).status },
                ..*old(self)
            }),
    {
        if self.status == PlaybackStatus::Playing {
            self.status = PlaybackStatus::Stopped;
        }
    }

    /// Nothing could be decoded when playback was to start: it stops.
    pub fn nothing_to_play(&mut self)
        ensures
            *final(self) == (PlaybackState { status: PlaybackStatus::Stopped, ..*old(self) }),
    {
        self.status = PlaybackStatus::Stopped;
    }

    /// Goes back to where the user stopped hearing: the heard song is
    /// selected again (its decoder closed, if it was not the one selected).
    /// Returns how far into it to seek, or an error if nothing was heard.
    /// (The caller also drops all queued audio.)
    pub fn reset_to_heard_point(&mut self) -> (r: Result<u64, PlaybackError>)
        ensures
            old(self).active_song is None ==> r == Err::<u64, PlaybackError>(PlaybackError::NoHeardSong) && *final(self) == *old(self),
            old(self).active_song matches Some((song, when)) ==> r == Ok::<u64, PlaybackError>(when) && *final(self) == if old(self).future_song == Some(song) {
                *old(self)
            } else {
                PlaybackState { future_song: Some(song), future_stream_open: false, ..*old(self) }
            },
    {
        match self.active_song {
            None => Err(PlaybackError::NoHeardSong),
            Some((song, when)) => {
                let same = match self.future_song {
                    Some(f) => f == song,
                    None => false,
                };
                if !same {
                    self.future_song = Some(song);
                    self.future_stream_open = false;
                }
                Ok(when)
            },
        }
    }

    /// The audio stream was closed. If playback paused, it goes back to
    /// where the user stopped hearing (`Some` of `reset_to_heard_point`'s
    /// answer); if it stopped, no song is selected or heard any more.
    pub fn stream_closed(&mut self) -> (r: Option<Result<u64, PlaybackError>>)
        ensures
            old(self).status == PlaybackStatus::Playing ==> r is None && *final(self) == *old(self),
            old(self).status == PlaybackStatus::Stopped ==> r is None
                && *final(self) == (PlaybackState { future_song: None, active_song: None, ..*old(self) }),
            old(self).status == PlaybackStatus::Paused ==> r is Some && match old(self).active_song {
                None => r->0 == Err::<u64, PlaybackError>(PlaybackError::NoHeardSong) && *final(self) == *old(self),
                Some((song, when)) => r->0 == Ok::<u64, PlaybackError>(when) && *final(self) == if old(self).future_song == Some(song) {
                    *old(self)
                } else {
                    PlaybackState { future_song: Some(song), future_stream_open: false, ..*old(self) }
                },
            },
    {
        match self.status {
            PlaybackStatus::Playing => None,
            PlaybackStatus::Paused => Some(self.reset_to_heard_point()),
            PlaybackStatus::Stopped => {
                self.future_song = None;
                self.active_song = None;
                None
            },
        }
    }

    /// Playback failed (the audio device or stream gave an error). Unless
    /// playback had stopped, it pauses and goes back to where the user
    /// stopped hearing (`Some` of `reset_to_heard_point`'s answer).
    pub fn playback_failed(&mut self) -> (r: Option<Result<u64, PlaybackError>>)
        ensures
            old(self).status == PlaybackStatus::Stopped ==> r is None && *final(self) == *old(self),
            old(self).status != PlaybackStatus::Stopped ==> r is Some && match old(self).active_song {
                None => r->0 == Err::<u64, PlaybackError>(PlaybackError::NoHeardSong)
                    && *final(self) == (PlaybackState { status: PlaybackStatus::Paused, ..*old(self) }),
                Some((song, when)) => r->0 == Ok::<u64, PlaybackError>(when) && *final(self) == if old(self).future_song == Some(song) {
                    PlaybackState { status: PlaybackStatus::Paused, ..*old(self) }
                } else {
                    PlaybackState { status: PlaybackStatus::Paused, future_song: Some(song), future_stream_open: false, ..*old(self) }
                },
            },
    {
        if self.status != PlaybackStatus::Stopped {
            self.status = PlaybackStatus::Paused;
            Some(self.reset_to_heard_point())
        } else {
            None
        }
    }

    /// The selected song could not be opened for decoding: its decoder is
    /// dropped and the next song is selected.
    pub fn stream_failed(&mut self, tree: &mut PlaylistTree, lib: &SongLibrary)
        ensures
            exists|r: Option<NextChoice>| #[trigger] next_song_effect(
                stream_dropped(*old(self)), old(tree)@, *final(self), final(tree)@, r),
    {
        self.future_stream_open = false;
        let r = self.next_song(tree, lib);
    }

    /// The selected song was decoded to its end. A song looping by itself is
    /// decoded again from its start (true is returned: the caller seeks to
    /// the start); otherwise the next song is selected (false).
    pub fn song_ended(&mut self, looping: bool, tree: &mut PlaylistTree, lib: &SongLibrary) -> (seek_to_start: bool)
        ensures
            seek_to_start == looping,
            looping ==> *final(self) == *old(self) && final(tree)@ == old(tree)@,
            !looping ==> exists|r: Option<NextChoice>| #[trigger] next_song_effect(*old(self), old(tree)@, *final(self), final(tree)@, r),
    {
        if looping {
            true
        } else {
            let r = self.next_song(tree, lib);
            false
        }
    }

    /// The selected decoder was opened.
    pub fn stream_opened(&mut self)
        ensures
            *final(self) == (PlaybackState { future_stream_open: true, ..*old(self) }),
    {
        self.future_stream_open = true;
    }
}

} // verus!
