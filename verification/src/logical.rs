//! Logical songs: a logical song is a particular performance of a particular
//! song. It may correspond to several encodings, each in a different physical
//! file. When a physical file is found, it is either matched to a song already
//! in the library by a similarity heuristic, or becomes a new song.

use vstd::prelude::*;
use crate::metadata::{Metadata, value_or_empty};
use crate::physical::{FileID, FileLibrary, PhysicalFile, SeenPath, has_id, get_file_by_id};
use crate::buckets::{Buckets, bucket_of};
use crate::generation::{GenerationTracker, GenerationValue, next_generation};
use crate::text::{decimal, decimal_digits, append_str, push_decimal};

verus! {

/// A song ID is a non-zero ID, unique within the database, that identifies a
/// particular logical song.
#[derive(Clone, Copy, PartialEq, Eq, Structural, PartialOrd, Ord, Hash, Debug)]
pub struct SongID {
    inner: u64,
}

impl SongID {
    /// The number this ID holds.
    pub closed spec fn value(&self) -> u64 {
        self.inner
    }

    /// The ID holding the number `v`.
    pub closed spec fn from_value(v: u64) -> SongID {
        SongID { inner: v }
    }

    /// `from_value` holds the number it was given.
    pub proof fn lemma_from_value(v: u64)
        ensures
            SongID::from_value(v).value() == v,
    {
    }

    pub fn from_inner(v: u64) -> (r: SongID)
        ensures
            r.value() == v,
            r == SongID::from_value(v),
    {
        SongID { inner: v }
    }

    pub fn as_inner(&self) -> (r: u64)
        ensures
            r == self.value(),
    {
        self.inner
    }

    /// IDs holding the same number are the same ID.
    pub proof fn lemma_value_injective(a: SongID, b: SongID)
        ensures
            (a.value() == b.value()) <==> (a == b),
    {
    }
}

/// A handle on a logical song is its ID: it names the song within a
/// `SongLibrary`.
pub type LogicalSongRef = SongID;

/// Representative metadata of a physical file, used by the "same logical
/// song" heuristic.
pub struct SimilarityRec {
    pub filename: String,
    pub title: String,
    pub album: String,
    pub artist: String,
    pub duration: u32,
}

impl Clone for SimilarityRec {
    fn clone(&self) -> (r: SimilarityRec)
        ensures
            r == *self,
    {
        SimilarityRec {
            filename: self.filename.clone(),
            title: self.title.clone(),
            album: self.album.clone(),
            artist: self.artist.clone(),
            duration: self.duration,
        }
    }
}

/// The part of the similarity score that comes from the durations: 30 for
/// equal durations, 10 less for each second of difference, but never below
/// -20.
pub open spec fn duration_score(a: u32, b: u32) -> int {
    let d: int = if a > b { a - b } else { b - a };
    let d: int = if d < 100 { d } else { 100 };
    if 30 - d * 10 > -20 { 30 - d * 10 } else { -20 }
}

/// The similarity score of two records: <= 0 is definitely not the same song,
/// >= 100 is definitely the same song. Matching file names give 20, matching
/// non-empty titles 40, albums 30, artists 30, plus the duration score.
pub open spec fn similarity(a: SimilarityRec, b: SimilarityRec) -> int {
    (if a.filename@ == b.filename@ { 20int } else { 0int })
    + (if a.title@.len() > 0 && a.title@ == b.title@ { 40int } else { 0int })
    + (if a.album@.len() > 0 && a.album@ == b.album@ { 30int } else { 0int })
    + (if a.artist@.len() > 0 && a.artist@ == b.artist@ { 30int } else { 0int })
    + duration_score(a.duration, b.duration)
}

/// The similarity score of two records does not depend on which of them is
/// compared to the other.
pub proof fn law_similarity_symmetric(a: SimilarityRec, b: SimilarityRec)
    ensures
        similarity(a, b) == similarity(b, a),
{
}

impl SimilarityRec {
    /// Applies the similarity heuristic to two files.
    pub fn get_similarity_to(&self, other: &SimilarityRec) -> (r: i32)
        ensures
            r == similarity(*self, *other),
    {
        let mut ret: i32 = 0;
        if self.filename == other.filename {
            ret += 20;
        }
        if !self.title.as_str().is_empty() && self.title == other.title {
            ret += 40;
        }
        if !self.album.as_str().is_empty() && self.album == other.album {
            ret += 30;
        }
        if !self.artist.as_str().is_empty() && self.artist == other.artist {
            ret += 30;
        }
        let distance: u32 = if self.duration > other.duration {
            self.duration - other.duration
        } else {
            other.duration - self.duration
        };
        let capped: i32 = if distance < 100 { distance as i32 } else { 100 };
        let dscore: i32 = if 30 - capped * 10 > -20 { 30 - capped * 10 } else { -20 };
        ret + dscore
    }

    /// Makes a similarity record from a file name, a duration and the raw
    /// metadata; a missing title, artist or album is empty.
    pub fn new(filename: String, duration: u32, metadata: &Metadata) -> (r: SimilarityRec)
        ensures
            r.filename@ == filename@,
            r.duration == duration,
            r.title@ == value_or_empty(metadata@, "title"@),
            r.artist@ == value_or_empty(metadata@, "artist"@),
            r.album@ == value_or_empty(metadata@, "album"@),
    {
        SimilarityRec {
            filename,
            duration,
            title: metadata.get_or_empty("title"),
            artist: metadata.get_or_empty("artist"),
            album: metadata.get_or_empty("album"),
        }
    }
}

/// The first non-empty title among the records from position `k` on.
pub open spec fn first_title_from(recs: Seq<SimilarityRec>, k: int) -> Option<Seq<char>>
    decreases recs.len() - k,
{
    if k < 0 || k >= recs.len() {
        None
    } else if recs[k].title@.len() > 0 {
        Some(recs[k].title@)
    } else {
        first_title_from(recs, k + 1)
    }
}

/// The first non-empty artist among the records from position `k` on.
pub open spec fn first_artist_from(recs: Seq<SimilarityRec>, k: int) -> Option<Seq<char>>
    decreases recs.len() - k,
{
    if k < 0 || k >= recs.len() {
        None
    } else if recs[k].artist@.len() > 0 {
        Some(recs[k].artist@)
    } else {
        first_artist_from(recs, k + 1)
    }
}

/// The tag's value in the metadata, or else the fallback.
pub open spec fn tag_or(md: Map<Seq<char>, Seq<char>>, tag: Seq<char>, fallback: Option<Seq<char>>) -> Option<Seq<char>> {
    if md.contains_key(tag) { Some(md[tag]) } else { fallback }
}

/// How a song is named in messages: its ID, then its title and artist
/// (from its metadata, or else from the first record of its files that has
/// one), as far as they are known.
pub open spec fn song_description(s: LogicalSong) -> Seq<char> {
    let title = tag_or(s.user_metadata@, "title"@, first_title_from(s.similarity_recs@, 0));
    let artist = tag_or(s.user_metadata@, "artist"@, first_artist_from(s.similarity_recs@, 0));
    "Song ID #"@ + decimal_digits(s.id.value() as nat) + match (title, artist) {
        (Some(t), Some(a)) => ", "@ + t + ", by "@ + a,
        (None, Some(a)) => ", a song by "@ + a,
        (Some(t), None) => ", "@ + t,
        (None, None) => Seq::<char>::empty(),
    }
}

fn first_title(recs: &Vec<SimilarityRec>) -> (r: Option<&String>)
    ensures
        match r {
            Some(t) => first_title_from(recs@, 0) == Some(t@),
            None => first_title_from(recs@, 0) is None,
        },
{
    let mut i: usize = 0;
    while i < recs.len()
        invariant
            i <= recs@.len(),
            first_title_from(recs@, 0) == first_title_from(recs@, i as int),
        decreases recs.len() - i,
    {
        if !recs[i].title.as_str().is_empty() {
            return Some(&recs[i].title);
        }
        i += 1;
    }
    None
}

fn first_artist(recs: &Vec<SimilarityRec>) -> (r: Option<&String>)
    ensures
        match r {
            Some(t) => first_artist_from(recs@, 0) == Some(t@),
            None => first_artist_from(recs@, 0) is None,
        },
{
    let mut i: usize = 0;
    while i < recs.len()
        invariant
            i <= recs@.len(),
            first_artist_from(recs@, 0) == first_artist_from(recs@, i as int),
        decreases recs.len() - i,
    {
        if !recs[i].artist.as_str().is_empty() {
            return Some(&recs[i].artist);
        }
        i += 1;
    }
    None
}

/// A logical song.
pub struct LogicalSong {
    pub id: SongID,
    /// The metadata the user has set for this song.
    pub user_metadata: Metadata,
    /// The files holding this song.
    pub physical_files: Vec<FileID>,
    /// The duration of the version last played, in seconds.
    pub duration: u32,
    /// The records of the files holding this song, for matching.
    pub similarity_recs: Vec<SimilarityRec>,
}

impl LogicalSong {
    /// The persistent unique ID of this song.
    pub fn get_id(&self) -> (r: SongID)
        ensures
            r == self.id,
    {
        self.id
    }

    /// The metadata the user has set for this song.
    pub fn get_metadata(&self) -> (r: &Metadata)
        ensures
            *r == self.user_metadata,
            r@ == self.user_metadata@,
    {
        &self.user_metadata
    }

    /// The files holding this song.
    pub fn get_physical_files(&self) -> (r: &Vec<FileID>)
        ensures
            r@ == self.physical_files@,
    {
        &self.physical_files
    }

    /// The estimated duration of the song, in seconds.
    pub fn get_duration(&self) -> (r: u32)
        ensures
            r == self.duration,
    {
        self.duration
    }

    /// Updates the duration of the song, recording it in the metadata under
    /// "duration" in decimal as well. Returns true when it changed, in which
    /// case the new duration must be written to the backing store.
    pub fn set_duration(&mut self, nu: u32) -> (changed: bool)
        ensures
            changed == (old(self).duration != nu),
            final(self).duration == nu,
            final(self).id == old(self).id,
            final(self).physical_files@ == old(self).physical_files@,
            final(self).similarity_recs@ == old(self).similarity_recs@,
            changed ==> final(self).user_metadata@ == old(self).user_metadata@.insert("duration"@, decimal_digits(nu as nat)),
            !changed ==> final(self).user_metadata@ == old(self).user_metadata@,
    {
        if self.duration != nu {
            self.user_metadata.insert("duration".to_owned(), decimal(nu as u64));
            self.duration = nu;
            true
        } else {
            false
        }
    }

    /// How this song is named in messages (see `song_description`), such as
    /// "Song ID #3, Marco Polo, by Loreena McKennitt".
    pub fn describe(&self) -> (r: String)
        ensures
            r@ == song_description(*self),
    {
        let title = match self.user_metadata.get("title") {
            Some(t) => Some(t),
            None => first_title(&self.similarity_recs),
        };
        let artist = match self.user_metadata.get("artist") {
            Some(a) => Some(a),
            None => first_artist(&self.similarity_recs),
        };
        let mut r = String::new();
        append_str(&mut r, "Song ID #");
        push_decimal(&mut r, self.id.as_inner());
        match (title, artist) {
            (Some(t), Some(a)) => {
                append_str(&mut r, ", ");
                append_str(&mut r, t.as_str());
                append_str(&mut r, ", by ");
                append_str(&mut r, a.as_str());
            },
            (None, Some(a)) => {
                append_str(&mut r, ", a song by ");
                append_str(&mut r, a.as_str());
            },
            (Some(t), None) => {
                append_str(&mut r, ", ");
                append_str(&mut r, t.as_str());
            },
            (None, None) => {},
        }
        proof {
            reveal(song_description);
        }
        r
    }

    /// Tries to open one of this song's files for decoding, in order, with
    /// `open`; returns the stream of the first file that opened, every file
    /// before it having failed, or nothing when every file failed.
    pub fn open_stream<T, F: Fn(&FileID) -> Option<T>>(&self, open: F) -> (r: Option<T>)
        requires
            forall|id: &FileID| #[trigger] open.requires((id,)),
        ensures
            r is None ==> forall|i: int| 0 <= i < self.physical_files@.len() ==> open.ensures((&self.physical_files@[i],), None::<T>),
            r is Some ==> exists|i: int| 0 <= i < self.physical_files@.len()
                && open.ensures((&self.physical_files@[i],), r)
                && forall|j: int| 0 <= j < i ==> open.ensures((&self.physical_files@[j],), None::<T>),
    {
        let mut i: usize = 0;
        while i < self.physical_files.len()
            invariant
                i <= self.physical_files.len(),
                forall|id: &FileID| #[trigger] open.requires((id,)),
                forall|j: int| 0 <= j < i ==> open.ensures((&self.physical_files@[j],), None::<T>),
            decreases self.physical_files.len() - i,
        {
            let got = open(&self.physical_files[i]);
            if got.is_some() {
                return got;
            }
            i += 1;
        }
        None
    }
}

/// What became of a physical file offered to the library.
#[derive(Clone, Copy, PartialEq, Eq, Debug)]
pub enum Incorporation {
    /// The file already belongs to a song; nothing changed.
    AlreadyKnown,
    /// The file was matched to the song at this position and added to it. The
    /// song's file list must be written to the backing store.
    Merged { index: usize },
    /// No song matched. The caller must make a new song (importing its
    /// metadata and adding it to the backing store) and then call
    /// `add_new_song`.
    NeedsNewSong,
}

/// `d` extended by the positions of `s` not yet in it, in order.
pub open spec fn dedup_extend(d: Seq<usize>, s: Seq<usize>) -> Seq<usize>
    decreases s.len(),
{
    if s.len() == 0 {
        d
    } else {
        let e = dedup_extend(d, s.drop_last());
        if e.contains(s.last()) { e } else { e.push(s.last()) }
    }
}

/// The best similarity of `r` to any of `recs`, or zero if none is better.
pub open spec fn best_similarity(recs: Seq<SimilarityRec>, r: SimilarityRec) -> int
    decreases recs.len(),
{
    if recs.len() == 0 {
        0
    } else {
        let b = best_similarity(recs.drop_last(), r);
        let s = similarity(r, recs.last());
        if s > b { s } else { b }
    }
}

/// Whether position `j` holds the first maximal score.
pub open spec fn is_first_max(scores: Seq<int>, j: int) -> bool {
    &&& 0 <= j < scores.len()
    &&& forall|i: int| 0 <= i < scores.len() ==> #[trigger] scores[i] <= scores[j]
    &&& forall|i: int| 0 <= i < j ==> #[trigger] scores[i] < scores[j]
}

/// The library of logical songs, with indexes from the file names, titles,
/// artists and albums of their files, and from file IDs.
pub struct SongLibrary {
    songs: Vec<LogicalSong>,
    by_file: Vec<(FileID, usize)>,
    by_filename: Buckets,
    by_title: Buckets,
    by_artist: Buckets,
    by_album: Buckets,
    tracker: GenerationTracker,
}

/// Every position in every bucket names a song.
pub open spec fn buckets_in_range(m: Map<Seq<char>, Seq<usize>>, n: nat) -> bool {
    forall|k: Seq<char>, j: int| #[trigger] m.contains_key(k) && 0 <= j < m[k].len() ==> #[trigger] m[k][j] < n
}

/// Every file entry names a song.
pub open spec fn file_entries_in_range(s: Seq<(FileID, usize)>, n: nat) -> bool {
    forall|j: int| 0 <= j < s.len() ==> #[trigger] s[j].1 < n
}

/// Whether some file entry is for `id`.
pub open spec fn has_file_entry(s: Seq<(FileID, usize)>, id: FileID) -> bool {
    exists|j: int| 0 <= j < s.len() && #[trigger] s[j].0 == id
}

impl SongLibrary {
    #[verifier::type_invariant]
    spec fn inv(&self) -> bool {
        &&& file_entries_in_range(self.by_file@, self.songs@.len())
        &&& buckets_in_range(self.by_filename@, self.songs@.len())
        &&& buckets_in_range(self.by_title@, self.songs@.len())
        &&& buckets_in_range(self.by_artist@, self.songs@.len())
        &&& buckets_in_range(self.by_album@, self.songs@.len())
    }

    /// The songs, in the order they were added.
    pub closed spec fn songs(&self) -> Seq<LogicalSong> {
        self.songs@
    }

    /// The (file ID, song position) entries, in the order they were made; a
    /// later entry for a file replaces an earlier one.
    pub closed spec fn file_entries(&self) -> Seq<(FileID, usize)> {
        self.by_file@
    }

    /// Songs by the file name of one of their files.
    pub closed spec fn filename_index(&self) -> Map<Seq<char>, Seq<usize>> {
        self.by_filename@
    }

    /// Songs by the title of one of their files.
    pub closed spec fn title_index(&self) -> Map<Seq<char>, Seq<usize>> {
        self.by_title@
    }

    /// Songs by the artist of one of their files.
    pub closed spec fn artist_index(&self) -> Map<Seq<char>, Seq<usize>> {
        self.by_artist@
    }

    /// Songs by the album of one of their files.
    pub closed spec fn album_index(&self) -> Map<Seq<char>, Seq<usize>> {
        self.by_album@
    }

    /// The generation of the library.
    pub closed spec fn gen(&self) -> nat {
        self.tracker.count()
    }

    /// The songs that might be the song of a file with record `r`: those filed
    /// under its file name, title, artist and album, in that order, each once.
    pub open spec fn candidates(&self, r: SimilarityRec) -> Seq<usize> {
        dedup_extend(dedup_extend(dedup_extend(dedup_extend(Seq::empty(),
            bucket_of(self.filename_index(), r.filename@)),
            bucket_of(self.title_index(), r.title@)),
            bucket_of(self.artist_index(), r.artist@)),
            bucket_of(self.album_index(), r.album@))
    }

    /// The score of each candidate: its best similarity to `r`.
    pub open spec fn candidate_scores(&self, r: SimilarityRec) -> Seq<int> {
        let c = self.candidates(r);
        Seq::new(c.len(), |i: int| best_similarity(self.songs()[c[i] as int].similarity_recs@, r))
    }

    /// An empty library at generation zero.
    pub fn new() -> (lib: SongLibrary)
        ensures
            lib.songs() == Seq::<LogicalSong>::empty(),
            lib.file_entries() == Seq::<(FileID, usize)>::empty(),
            lib.filename_index() == Map::<Seq<char>, Seq<usize>>::empty(),
            lib.title_index() == Map::<Seq<char>, Seq<usize>>::empty(),
            lib.artist_index() == Map::<Seq<char>, Seq<usize>>::empty(),
            lib.album_index() == Map::<Seq<char>, Seq<usize>>::empty(),
            lib.gen() == 0,
    {
        SongLibrary {
            songs: Vec::new(),
            by_file: Vec::new(),
            by_filename: Buckets::new(),
            by_title: Buckets::new(),
            by_artist: Buckets::new(),
            by_album: Buckets::new(),
            tracker: GenerationTracker::new(),
        }
    }

    /// The number of songs.
    pub fn len(&self) -> (n: usize)
        ensures
            n == self.songs().len(),
    {
        self.songs.len()
    }

    /// The song at position `i`.
    pub fn song_at(&self, i: usize) -> (s: &LogicalSong)
        requires
            i < self.songs().len(),
        ensures
            *s == self.songs()[i as int],
    {
        &self.songs[i]
    }

    /// Every indexed position names a song.
    pub fn check_invariant(&self)
        ensures
            file_entries_in_range(self.file_entries(), self.songs().len()),
            buckets_in_range(self.filename_index(), self.songs().len()),
            buckets_in_range(self.title_index(), self.songs().len()),
            buckets_in_range(self.artist_index(), self.songs().len()),
            buckets_in_range(self.album_index(), self.songs().len()),
    {
        proof { use_type_invariant(self); }
    }
}

/// The position of the last song with this ID.
pub open spec fn last_with_id(songs: Seq<LogicalSong>, id: SongID) -> int {
    choose|i: int| 0 <= i < songs.len() && songs[i].id == id
        && forall|j: int| i < j < songs.len() ==> #[trigger] songs[j].id != id
}

/// When some song has the ID, the position of the last one is well defined.
proof fn lemma_last_with_id(songs: Seq<LogicalSong>, id: SongID)
    requires
        has_song_id(songs, id),
    ensures
        0 <= last_with_id(songs, id) < songs.len(),
        songs[last_with_id(songs, id)].id == id,
        forall|j: int| last_with_id(songs, id) < j < songs.len() ==> #[trigger] songs[j].id != id,
    decreases songs.len(),
{
    let n = songs.len() as int;
    if songs[n - 1].id == id {
        assert(0 <= n - 1 < n && songs[n - 1].id == id
            && forall|j: int| n - 1 < j < n ==> #[trigger] songs[j].id != id);
    } else {
        let d = songs.drop_last();
        let w = choose|i: int| 0 <= i < n && #[trigger] songs[i].id == id;
        assert(d[w].id == id);
        lemma_last_with_id(d, id);
        let c = last_with_id(d, id);
        assert(songs[c].id == id);
        assert forall|j: int| c < j < n implies #[trigger] songs[j].id != id by {
            if j < n - 1 {
                assert(d[j] == songs[j]);
            }
        }
    }
}

/// Whether some song has this ID.
pub open spec fn has_song_id(songs: Seq<LogicalSong>, id: SongID) -> bool {
    exists|i: int| 0 <= i < songs.len() && #[trigger] songs[i].id == id
}

/// Finds the position of the song with a given ID (the one added last, if
/// several share it).
pub fn find_song_by_song_id(lib: &SongLibrary, id: SongID) -> (r: Option<usize>)
    ensures
        match r {
            Some(i) => has_song_id(lib.songs(), id) && i == last_with_id(lib.songs(), id)
                && i < lib.songs().len() && lib.songs()[i as int].id == id,
            None => !has_song_id(lib.songs(), id),
        },
{
    let mut i: usize = lib.songs.len();
    while i > 0
        invariant
            i <= lib.songs@.len(),
            forall|j: int| i <= j < lib.songs@.len() ==> #[trigger] lib.songs@[j].id != id,
        decreases i,
    {
        i -= 1;
        if lib.songs[i].id == id {
            proof {
                let c = last_with_id(lib.songs@, id);
                assert(0 <= i < lib.songs@.len() && lib.songs@[i as int].id == id
                    && forall|j: int| i < j < lib.songs@.len() ==> #[trigger] lib.songs@[j].id != id);
                if c != i {
                    if c < i {
                        assert(lib.songs@[i as int].id != id);
                    } else {
                        assert(lib.songs@[c].id != id);
                    }
                }
            }
            return Some(i);
        }
    }
    None
}

/// Fetches a logical song by its unique ID.
pub fn get_song_by_song_id(lib: &SongLibrary, id: SongID) -> (r: Option<&LogicalSong>)
    ensures
        match r {
            Some(s) => has_song_id(lib.songs(), id) && *s == lib.songs()[last_with_id(lib.songs(), id)],
            None => !has_song_id(lib.songs(), id),
        },
{
    match find_song_by_song_id(lib, id) {
        Some(i) => Some(&lib.songs[i]),
        None => None,
    }
}

/// The current generation of the song library. Any update to the songs bumps
/// it.
pub fn get_generation(lib: &SongLibrary) -> (g: GenerationValue)
    ensures
        g.value() == lib.gen(),
{
    lib.tracker.snapshot()
}

/// The list of all logical songs, along with the current generation.
pub fn get_all_songs_for_read(lib: &SongLibrary) -> (r: (&Vec<LogicalSong>, GenerationValue))
    ensures
        r.0@ == lib.songs(),
        r.1.value() == lib.gen(),
{
    (&lib.songs, lib.tracker.snapshot())
}

fn best_similarity_of(recs: &Vec<SimilarityRec>, r: &SimilarityRec) -> (best: i32)
    ensures
        best == best_similarity(recs@, *r),
{
    let mut best: i32 = 0;
    let mut i: usize = 0;
    while i < recs.len()
        invariant
            i <= recs.len(),
            best == best_similarity(recs@.take(i as int), *r),
        decreases recs.len() - i,
    {
        let s = r.get_similarity_to(&recs[i]);
        proof {
            assert(recs@.take(i + 1).drop_last() =~= recs@.take(i as int));
            assert(recs@.take(i + 1).last() == recs@[i as int]);
        }
        if s > best {
            best = s;
        }
        i += 1;
    }
    assert(recs@.take(recs.len() as int) =~= recs@);
    best
}

/// The positions of a list of possibilities.
pub open spec fn possibility_positions(p: Seq<(usize, i32)>) -> Seq<usize> {
    p.map_values(|e: (usize, i32)| e.0)
}

/// Adds to `possibilities` each song of `songs` that is not already there,
/// with its best similarity to `similarity_rec`.
fn add_possibilities(lib: &SongLibrary, songs: &Vec<usize>, possibilities: &mut Vec<(usize, i32)>,
                     similarity_rec: &SimilarityRec)
    requires
        forall|j: int| 0 <= j < songs@.len() ==> #[trigger] songs@[j] < lib.songs().len(),
        forall|j: int| 0 <= j < old(possibilities)@.len() ==>
            #[trigger] old(possibilities)@[j].1 == best_similarity(lib.songs()[old(possibilities)@[j].0 as int].similarity_recs@, *similarity_rec),
        forall|j: int| 0 <= j < old(possibilities)@.len() ==> #[trigger] old(possibilities)@[j].0 < lib.songs().len(),
    ensures
        possibility_positions(final(possibilities)@) == dedup_extend(possibility_positions(old(possibilities)@), songs@),
        forall|j: int| 0 <= j < final(possibilities)@.len() ==>
            #[trigger] final(possibilities)@[j].1 == best_similarity(lib.songs()[final(possibilities)@[j].0 as int].similarity_recs@, *similarity_rec),
        forall|j: int| 0 <= j < final(possibilities)@.len() ==> #[trigger] final(possibilities)@[j].0 < lib.songs().len(),
{
    let mut i: usize = 0;
    while i < songs.len()
        invariant
            i <= songs.len(),
            forall|j: int| 0 <= j < songs@.len() ==> #[trigger] songs@[j] < lib.songs().len(),
            possibility_positions(possibilities@) == dedup_extend(possibility_positions(old(possibilities)@), songs@.take(i as int)),
            forall|j: int| 0 <= j < possibilities@.len() ==>
                #[trigger] possibilities@[j].1 == best_similarity(lib.songs()[possibilities@[j].0 as int].similarity_recs@, *similarity_rec),
            forall|j: int| 0 <= j < possibilities@.len() ==> #[trigger] possibilities@[j].0 < lib.songs().len(),
        decreases songs.len() - i,
    {
        let song = songs[i];
        let mut seen = false;
        let mut j: usize = 0;
        while j < possibilities.len()
            invariant
                j <= possibilities.len(),
                seen == exists|a: int| 0 <= a < j && #[trigger] possibilities@[a].0 == song,
            decreases possibilities.len() - j,
        {
            if possibilities[j].0 == song {
                seen = true;
            }
            j += 1;
        }
        let ghost before = possibility_positions(possibilities@);
        proof {
            assert(songs@.take(i + 1).drop_last() =~= songs@.take(i as int));
            assert(songs@.take(i + 1).last() == song);
            if seen {
                let a = choose|a: int| 0 <= a < possibilities@.len() && #[trigger] possibilities@[a].0 == song;
                assert(before[a] == song);
            } else {
                assert forall|a: int| 0 <= a < before.len() implies before[a] != song by {
                    assert(before[a] == possibilities@[a].0);
                }
            }
        }
        if !seen {
            let best = best_similarity_of(&lib.songs[song].similarity_recs, similarity_rec);
            possibilities.push((song, best));
            proof {
                assert(possibility_positions(possibilities@) =~= before.push(song));
            }
        }
        i += 1;
    }
    assert(songs@.take(songs.len() as int) =~= songs@);
}

/// The position of the first maximal score.
fn first_max(p: &Vec<(usize, i32)>) -> (j: usize)
    requires
        p@.len() > 0,
    ensures
        is_first_max(Seq::new(p@.len(), |i: int| p@[i].1 as int), j as int),
{
    let ghost scores = Seq::new(p@.len(), |i: int| p@[i].1 as int);
    let mut best: usize = 0;
    let mut i: usize = 1;
    while i < p.len()
        invariant
            1 <= i <= p.len(),
            best < i,
            scores == Seq::new(p@.len(), |i: int| p@[i].1 as int),
            forall|a: int| 0 <= a < i ==> #[trigger] scores[a] <= scores[best as int],
            forall|a: int| 0 <= a < best ==> #[trigger] scores[a] < scores[best as int],
        decreases p.len() - i,
    {
        if p[i].1 > p[best].1 {
            best = i;
        }
        i += 1;
    }
    best
}

/// Offers a physical file (with its similarity record) to the library. If the
/// file already belongs to a song, nothing happens. Otherwise the candidate
/// songs are scored; if the first best-scoring candidate scores at least 100,
/// the file is added to that song (and becomes known, so a second offer
/// changes nothing) and the generation is bumped. Otherwise a new song is
/// needed: `add_new_song` makes it, once the caller has imported its
/// metadata and stored it.
pub fn incorporate_physical(lib: &mut SongLibrary, file_id: FileID, similarity_rec: SimilarityRec) -> (r: Incorporation)
    ensures
        has_file_entry(old(lib).file_entries(), file_id) ==> r == Incorporation::AlreadyKnown,
        r == Incorporation::AlreadyKnown ==> has_file_entry(old(lib).file_entries(), file_id),
        r != Incorporation::AlreadyKnown ==> ({
            let scores = old(lib).candidate_scores(similarity_rec);
            match r {
                Incorporation::Merged { index } => {
                    &&& scores.len() > 0
                    &&& exists|j: int| is_first_max(scores, j) && scores[j] >= 100
                        && index == old(lib).candidates(similarity_rec)[j]
                },
                _ => forall|j: int| is_first_max(scores, j) ==> scores[j] < 100,
            }
        }),
        match r {
            Incorporation::Merged { index } => {
                let s = old(lib).songs()[index as int];
                let t = final(lib).songs()[index as int];
                &&& index < old(lib).songs().len()
                &&& final(lib).songs().len() == old(lib).songs().len()
                &&& forall|j: int| 0 <= j < old(lib).songs().len() && j != index ==> #[trigger] final(lib).songs()[j] == old(lib).songs()[j]
                &&& t.id == s.id && t.user_metadata@ == s.user_metadata@ && t.duration == s.duration
                &&& t.physical_files@ == s.physical_files@.push(file_id)
                &&& t.similarity_recs@ == s.similarity_recs@.push(similarity_rec)
            },
            _ => final(lib).songs() == old(lib).songs(),
        },
        final(lib).file_entries() == match r {
            Incorporation::Merged { index } => old(lib).file_entries().push((file_id, index)),
            _ => old(lib).file_entries(),
        },
        final(lib).filename_index() == old(lib).filename_index(),
        final(lib).title_index() == old(lib).title_index(),
        final(lib).artist_index() == old(lib).artist_index(),
        final(lib).album_index() == old(lib).album_index(),
        final(lib).gen() == if r is Merged { next_generation(old(lib).gen()) } else { old(lib).gen() },
{
    proof { use_type_invariant(&*lib); }
    let mut e: usize = 0;
    while e < lib.by_file.len()
        invariant
            e <= lib.by_file@.len(),
            forall|a: int| 0 <= a < e ==> #[trigger] lib.by_file@[a].0 != file_id,
        decreases lib.by_file.len() - e,
    {
        if lib.by_file[e].0 == file_id {
            proof { FileID::lemma_view_injective(lib.by_file@[e as int].0, file_id); }
            return Incorporation::AlreadyKnown;
        }
        proof { FileID::lemma_view_injective(lib.by_file@[e as int].0, file_id); }
        e += 1;
    }
    let mut possibilities: Vec<(usize, i32)> = Vec::new();
    let b1 = lib.by_filename.get(similarity_rec.filename.as_str());
    let b2 = lib.by_title.get(similarity_rec.title.as_str());
    let b3 = lib.by_artist.get(similarity_rec.artist.as_str());
    let b4 = lib.by_album.get(similarity_rec.album.as_str());
    proof {
        let n = lib.songs@.len();
        assert forall|j: int| 0 <= j < b1@.len() implies #[trigger] b1@[j] < n by {
            assert(lib.by_filename@.contains_key(similarity_rec.filename@));
        }
        assert forall|j: int| 0 <= j < b2@.len() implies #[trigger] b2@[j] < n by {
            assert(lib.by_title@.contains_key(similarity_rec.title@));
        }
        assert forall|j: int| 0 <= j < b3@.len() implies #[trigger] b3@[j] < n by {
            assert(lib.by_artist@.contains_key(similarity_rec.artist@));
        }
        assert forall|j: int| 0 <= j < b4@.len() implies #[trigger] b4@[j] < n by {
            assert(lib.by_album@.contains_key(similarity_rec.album@));
        }
        assert(possibility_positions(possibilities@) =~= Seq::<usize>::empty());
    }
    add_possibilities(lib, &b1, &mut possibilities, &similarity_rec);
    add_possibilities(lib, &b2, &mut possibilities, &similarity_rec);
    add_possibilities(lib, &b3, &mut possibilities, &similarity_rec);
    add_possibilities(lib, &b4, &mut possibilities, &similarity_rec);
    let ghost cands = lib.candidates(similarity_rec);
    let ghost scores = lib.candidate_scores(similarity_rec);
    proof {
        assert(possibility_positions(possibilities@) == cands);
        assert(scores =~= Seq::new(possibilities@.len(), |i: int| possibilities@[i].1 as int)) by {
            assert forall|i: int| 0 <= i < possibilities@.len() implies scores[i] == possibilities@[i].1 as int by {
                assert(cands[i] == possibilities@[i].0);
            }
        }
    }
    if possibilities.len() == 0 {
        return Incorporation::NeedsNewSong;
    }
    let j = first_max(&possibilities);
    if possibilities[j].1 < 100 {
        proof {
            assert forall|k: int| is_first_max(scores, k) implies scores[k] < 100 by {
                assert(scores[k] <= scores[j as int]);
            }
        }
        return Incorporation::NeedsNewSong;
    }
    let index = possibilities[j].0;
    proof {
        assert(index == cands[j as int]);
        assert(is_first_max(scores, j as int) && scores[j as int] >= 100);
    }
    let mut tmp = SongLibrary::new();
    std::mem::swap(&mut tmp, lib);
    let SongLibrary { mut songs, mut by_file, by_filename, by_title, by_artist, by_album, mut tracker } = tmp;
    let mut song = songs.remove(index);
    song.physical_files.push(file_id);
    song.similarity_recs.push(similarity_rec);
    songs.insert(index, song);
    by_file.push((file_id, index));
    tracker.bump();
    proof {
        assert(forall|a: int| 0 <= a < songs@.len() && a != index ==> #[trigger] songs@[a] == old(lib).songs@[a]);
        assert forall|a: int| 0 <= a < by_file@.len() implies #[trigger] by_file@[a].1 < songs@.len() by {
            if a < old(lib).by_file@.len() {
                assert(by_file@[a] == old(lib).by_file@[a]);
            }
        }
    }
    *lib = SongLibrary { songs, by_file, by_filename, by_title, by_artist, by_album, tracker };
    Incorporation::Merged { index }
}


/// Pushing a position below `n + 1` onto a bucket keeps every position of an
/// index below `n + 1`.
proof fn lemma_push_in_range(before: Map<Seq<char>, Seq<usize>>, after: Map<Seq<char>, Seq<usize>>, key: Seq<char>, v: usize, n: nat)
    requires
        buckets_in_range(before, n),
        v < n,
        after == before.insert(key, bucket_of(before, key).push(v)),
    ensures
        buckets_in_range(after, n),
{
    assert forall|k: Seq<char>, j: int| #[trigger] after.contains_key(k) && 0 <= j < after[k].len() implies #[trigger] after[k][j] < n by {
        if k == key {
            if j < bucket_of(before, key).len() {
                assert(after[k][j] == bucket_of(before, key)[j]);
                assert(before.contains_key(key));
            }
        } else {
            assert(after[k] == before[k]);
        }
    }
}

/// Whether `after` is `before` with some copies of `v` added at the end of some
/// buckets, and no other change.
pub open spec fn only_added(before: Map<Seq<char>, Seq<usize>>, after: Map<Seq<char>, Seq<usize>>, v: usize) -> bool {
    forall|key: Seq<char>| {
        let b = #[trigger] bucket_of(before, key);
        let a = bucket_of(after, key);
        &&& b.len() <= a.len()
        &&& a.take(b.len() as int) == b
        &&& forall|j: int| b.len() <= j < a.len() ==> #[trigger] a[j] == v
    }
}

proof fn lemma_only_added_push(before: Map<Seq<char>, Seq<usize>>, mid: Map<Seq<char>, Seq<usize>>, after: Map<Seq<char>, Seq<usize>>, key: Seq<char>, v: usize)
    requires
        only_added(before, mid, v),
        after == mid.insert(key, bucket_of(mid, key).push(v)),
    ensures
        only_added(before, after, v),
        bucket_of(after, key).contains(v),
{
    assert(bucket_of(after, key) == bucket_of(mid, key).push(v));
    assert(bucket_of(after, key)[bucket_of(mid, key).len() as int] == v);
    assert forall|q: Seq<char>| {
        let b = #[trigger] bucket_of(before, q);
        let a = bucket_of(after, q);
        &&& b.len() <= a.len()
        &&& a.take(b.len() as int) == b
        &&& forall|j: int| b.len() <= j < a.len() ==> #[trigger] a[j] == v
    } by {
        let b = bucket_of(before, q);
        let m = bucket_of(mid, q);
        let a = bucket_of(after, q);
        assert(m.take(b.len() as int) == b);
        if q == key {
            assert(a == m.push(v));
            assert(a.take(b.len() as int) =~= m.take(b.len() as int));
            assert forall|j: int| b.len() <= j < a.len() implies #[trigger] a[j] == v by {
                if j < m.len() {
                    assert(a[j] == m[j]);
                }
            }
        } else {
            assert(a == m);
        }
    }
}

proof fn lemma_only_added_refl(m: Map<Seq<char>, Seq<usize>>, v: usize)
    ensures
        only_added(m, m, v),
{
    assert forall|q: Seq<char>| {
        let b = #[trigger] bucket_of(m, q);
        let a = bucket_of(m, q);
        &&& b.len() <= a.len()
        &&& a.take(b.len() as int) == b
        &&& forall|j: int| b.len() <= j < a.len() ==> #[trigger] a[j] == v
    } by {
        assert(bucket_of(m, q).take(bucket_of(m, q).len() as int) =~= bucket_of(m, q));
    }
}

proof fn lemma_only_added_contains(before: Map<Seq<char>, Seq<usize>>, mid: Map<Seq<char>, Seq<usize>>, after: Map<Seq<char>, Seq<usize>>, key: Seq<char>, v: usize)
    requires
        bucket_of(mid, key).contains(v),
        only_added(mid, after, v),
    ensures
        bucket_of(after, key).contains(v),
{
    let m = bucket_of(mid, key);
    let a = bucket_of(after, key);
    let i = choose|i: int| 0 <= i < m.len() && m[i] == v;
    assert(a.take(m.len() as int) == m);
    assert(a[i] == m[i]);
}

/// The characters of a similarity record.
pub struct RecView {
    pub filename: Seq<char>,
    pub title: Seq<char>,
    pub album: Seq<char>,
    pub artist: Seq<char>,
    pub duration: u32,
}

impl SimilarityRec {
    pub open spec fn rec_view(&self) -> RecView {
        RecView {
            filename: self.filename@,
            title: self.title@,
            album: self.album@,
            artist: self.artist@,
            duration: self.duration,
        }
    }
}

/// The record of a file seen at a path with the given file name.
pub open spec fn rec_for_path(f: PhysicalFile, p: SeenPath) -> RecView {
    RecView {
        filename: p.file_name@,
        title: value_or_empty(f.raw_meta@, "title"@),
        album: value_or_empty(f.raw_meta@, "album"@),
        artist: value_or_empty(f.raw_meta@, "artist"@),
        duration: f.duration,
    }
}

/// The position of the record with this ID.
pub open spec fn file_position(files: Seq<PhysicalFile>, id: FileID) -> int {
    choose|i: int| 0 <= i < files.len() && #[trigger] files[i].id == id
}

/// The records of a file: one for each absolute path it was seen at, or none
/// if the file is unknown.
pub open spec fn recs_for_file(files: Seq<PhysicalFile>, id: FileID) -> Seq<RecView> {
    if has_id(files, id) {
        let f = files[file_position(files, id)];
        f.absolute_paths@.map_values(|p: SeenPath| rec_for_path(f, p))
    } else {
        Seq::empty()
    }
}

/// The records of a list of files, in order.
pub open spec fn recs_for_files(files: Seq<PhysicalFile>, ids: Seq<FileID>) -> Seq<RecView>
    decreases ids.len(),
{
    if ids.len() == 0 {
        Seq::empty()
    } else {
        recs_for_files(files, ids.drop_last()) + recs_for_file(files, ids.last())
    }
}

/// The file entries made for a song at position `k` with these files: one for
/// each known file, in order.
pub open spec fn entries_for_files(files: Seq<PhysicalFile>, ids: Seq<FileID>, k: usize) -> Seq<(FileID, usize)>
    decreases ids.len(),
{
    if ids.len() == 0 {
        Seq::empty()
    } else {
        let e = entries_for_files(files, ids.drop_last(), k);
        if has_id(files, ids.last()) { e.push((ids.last(), k)) } else { e }
    }
}

/// The views of a list of records.
pub open spec fn rec_views(v: Seq<SimilarityRec>) -> Seq<RecView> {
    v.map_values(|r: SimilarityRec| r.rec_view())
}

/// The record's file name, title, artist and album each have position `k` in
/// their bucket.
pub open spec fn indexed_at(r: RecView, m1: Map<Seq<char>, Seq<usize>>, m2: Map<Seq<char>, Seq<usize>>,
                            m3: Map<Seq<char>, Seq<usize>>, m4: Map<Seq<char>, Seq<usize>>, k: usize) -> bool {
    &&& bucket_of(m1, r.filename).contains(k)
    &&& bucket_of(m2, r.title).contains(k)
    &&& bucket_of(m3, r.artist).contains(k)
    &&& bucket_of(m4, r.album).contains(k)
}

/// Every record is indexed at position `k`.
pub open spec fn all_indexed(recs: Seq<RecView>, m1: Map<Seq<char>, Seq<usize>>, m2: Map<Seq<char>, Seq<usize>>,
                             m3: Map<Seq<char>, Seq<usize>>, m4: Map<Seq<char>, Seq<usize>>, k: usize) -> bool {
    forall|a: int| 0 <= a < recs.len() ==> #[trigger] indexed_at(recs[a], m1, m2, m3, m4, k)
}

/// Every record's file name, title, artist and album has position `k` in its
/// bucket.
pub open spec fn recs_indexed(lib: SongLibrary, recs: Seq<RecView>, k: usize) -> bool {
    all_indexed(recs, lib.filename_index(), lib.title_index(), lib.artist_index(), lib.album_index(), k)
}

/// Adds a song loaded from the backing store. Each of its files that is known
/// to `files` is indexed under that file's ID, and for each absolute path of
/// such a file a similarity record is made and indexed under its file name,
/// title, artist and album. Files unknown to `files` are skipped. The
/// generation is bumped.
pub fn add_song_from_db(lib: &mut SongLibrary, files: &FileLibrary, id: SongID, user_metadata: Metadata,
                        physical_files: Vec<FileID>, duration: u32)
    ensures
        ({
            let k = old(lib).songs().len() as usize;
            let t = final(lib).songs()[k as int];
            &&& final(lib).songs().len() == k + 1
            &&& final(lib).songs().take(k as int) == old(lib).songs()
            &&& t.id == id && t.user_metadata@ == user_metadata@ && t.duration == duration
            &&& t.physical_files@ == physical_files@
            &&& rec_views(t.similarity_recs@) == recs_for_files(files.files(), physical_files@)
            &&& final(lib).file_entries() == old(lib).file_entries() + entries_for_files(files.files(), physical_files@, k)
            &&& recs_indexed(*final(lib), recs_for_files(files.files(), physical_files@), k)
            &&& only_added(old(lib).filename_index(), final(lib).filename_index(), k)
            &&& only_added(old(lib).title_index(), final(lib).title_index(), k)
            &&& only_added(old(lib).artist_index(), final(lib).artist_index(), k)
            &&& only_added(old(lib).album_index(), final(lib).album_index(), k)
            &&& final(lib).gen() == next_generation(old(lib).gen())
        }),
{
    proof { use_type_invariant(&*lib); }
    files.check_invariant();
    let k = lib.songs.len();
    let mut tmp = SongLibrary::new();
    std::mem::swap(&mut tmp, lib);
    let SongLibrary { mut songs, mut by_file, mut by_filename, mut by_title, mut by_artist, mut by_album, mut tracker } = tmp;
    let ghost n = songs@.len();
    proof {
        lemma_only_added_refl(by_filename@, k);
        lemma_only_added_refl(by_title@, k);
        lemma_only_added_refl(by_artist@, k);
        lemma_only_added_refl(by_album@, k);
    }
    let mut recs: Vec<SimilarityRec> = Vec::new();
    let mut i: usize = 0;
    while i < physical_files.len()
        invariant
            i <= physical_files.len(),
            k == n,
            songs@ == old(lib).songs@,
            n == old(lib).songs@.len(),
            ids_unique_ok(files.files()),
            rec_views(recs@) == recs_for_files(files.files(), physical_files@.take(i as int)),
            by_file@ == old(lib).by_file@ + entries_for_files(files.files(), physical_files@.take(i as int), k),
            file_entries_in_range(old(lib).by_file@, n),
            buckets_in_range(by_filename@, n + 1),
            buckets_in_range(by_title@, n + 1),
            buckets_in_range(by_artist@, n + 1),
            buckets_in_range(by_album@, n + 1),
            only_added(old(lib).by_filename@, by_filename@, k),
            only_added(old(lib).by_title@, by_title@, k),
            only_added(old(lib).by_artist@, by_artist@, k),
            only_added(old(lib).by_album@, by_album@, k),
            all_indexed(rec_views(recs@), by_filename@, by_title@, by_artist@, by_album@, k),
            tracker == old(lib).tracker,
        decreases physical_files.len() - i,
    {
        let fid = physical_files[i];
        proof {
            assert(physical_files@.take(i + 1).drop_last() =~= physical_files@.take(i as int));
            assert(physical_files@.take(i + 1).last() == fid);
        }
        match get_file_by_id(files, &fid) {
            None => {
                proof {
                    assert(recs_for_file(files.files(), fid) =~= Seq::<RecView>::empty());
                    assert(recs_for_files(files.files(), physical_files@.take(i as int)) + Seq::<RecView>::empty() =~= recs_for_files(files.files(), physical_files@.take(i as int)));
                }
            },
            Some(file) => {
                proof {
                    let c = file_position(files.files(), fid);
                    let w = choose|w: int| 0 <= w < files.files().len() && files.files()[w] == *file;
                    assert(files.files()[w].id == fid);
                    assert(files.files()[c].id == fid);
                    if w != c {
                        assert(files.files()[w].id != files.files()[c].id);
                    }
                }
                let ghost f = *file;
                let ghost recs_before = rec_views(recs@);
                let mut p: usize = 0;
                while p < file.absolute_paths.len()
                    invariant
                        p <= file.absolute_paths.len(),
                        *file == f,
                        k == n,
                        rec_views(recs@) == recs_before + f.absolute_paths@.take(p as int).map_values(|q: SeenPath| rec_for_path(f, q)),
                        buckets_in_range(by_filename@, n + 1),
                        buckets_in_range(by_title@, n + 1),
                        buckets_in_range(by_artist@, n + 1),
                        buckets_in_range(by_album@, n + 1),
                        only_added(old(lib).by_filename@, by_filename@, k),
                        only_added(old(lib).by_title@, by_title@, k),
                        only_added(old(lib).by_artist@, by_artist@, k),
                        only_added(old(lib).by_album@, by_album@, k),
                        all_indexed(rec_views(recs@), by_filename@, by_title@, by_artist@, by_album@, k),
                    decreases file.absolute_paths.len() - p,
                {
                    let rec = SimilarityRec::new(file.absolute_paths[p].file_name.clone(), file.duration, &file.raw_meta);
                    let ghost m1 = by_filename@;
                    let ghost m2 = by_title@;
                    let ghost m3 = by_artist@;
                    let ghost m4 = by_album@;
                    by_filename.push(rec.filename.as_str(), k);
                    by_title.push(rec.title.as_str(), k);
                    by_artist.push(rec.artist.as_str(), k);
                    by_album.push(rec.album.as_str(), k);
                    proof {
                        lemma_push_in_range(m1, by_filename@, rec.filename@, k, n + 1);
                        lemma_push_in_range(m2, by_title@, rec.title@, k, n + 1);
                        lemma_push_in_range(m3, by_artist@, rec.artist@, k, n + 1);
                        lemma_push_in_range(m4, by_album@, rec.album@, k, n + 1);
                        lemma_only_added_refl(m1, k);
                        lemma_only_added_refl(m2, k);
                        lemma_only_added_refl(m3, k);
                        lemma_only_added_refl(m4, k);
                        lemma_only_added_push(m1, m1, by_filename@, rec.filename@, k);
                        lemma_only_added_push(m2, m2, by_title@, rec.title@, k);
                        lemma_only_added_push(m3, m3, by_artist@, rec.artist@, k);
                        lemma_only_added_push(m4, m4, by_album@, rec.album@, k);
                        lemma_only_added_push(old(lib).by_filename@, m1, by_filename@, rec.filename@, k);
                        lemma_only_added_push(old(lib).by_title@, m2, by_title@, rec.title@, k);
                        lemma_only_added_push(old(lib).by_artist@, m3, by_artist@, rec.artist@, k);
                        lemma_only_added_push(old(lib).by_album@, m4, by_album@, rec.album@, k);
                        assert forall|a: int| 0 <= a < rec_views(recs@).len() implies #[trigger] indexed_at(rec_views(recs@)[a], by_filename@, by_title@, by_artist@, by_album@, k) by {
                            let rv = rec_views(recs@)[a];
                            assert(indexed_at(rv, m1, m2, m3, m4, k));
                            lemma_only_added_contains(m1, m1, by_filename@, rv.filename, k);
                            lemma_only_added_contains(m2, m2, by_title@, rv.title, k);
                            lemma_only_added_contains(m3, m3, by_artist@, rv.artist, k);
                            lemma_only_added_contains(m4, m4, by_album@, rv.album, k);
                        }
                    }
                    let ghost before_push = recs@;
                    recs.push(rec);
                    proof {
                        let q = f.absolute_paths@[p as int];
                        assert(rec.rec_view() == rec_for_path(f, q));
                        assert(f.absolute_paths@.take(p + 1).map_values(|q: SeenPath| rec_for_path(f, q)) =~=
                            f.absolute_paths@.take(p as int).map_values(|q: SeenPath| rec_for_path(f, q)).push(rec_for_path(f, q)));
                        assert(rec_views(recs@) =~= rec_views(before_push).push(rec.rec_view()));
                        assert forall|a: int| 0 <= a < rec_views(recs@).len() implies #[trigger] indexed_at(rec_views(recs@)[a], by_filename@, by_title@, by_artist@, by_album@, k) by {
                            if a < before_push.len() {
                                assert(rec_views(recs@)[a] == rec_views(before_push)[a]);
                            }
                        }
                    }
                    p += 1;
                }
                proof {
                    assert(f.absolute_paths@.take(f.absolute_paths@.len() as int) =~= f.absolute_paths@);
                    assert(recs_for_file(files.files(), fid) == f.absolute_paths@.map_values(|q: SeenPath| rec_for_path(f, q)));
                }
                by_file.push((fid, k));
                proof {
                    let e = entries_for_files(files.files(), physical_files@.take(i as int), k);
                    assert(by_file@ =~= old(lib).by_file@ + e.push((fid, k)));
                }
            },
        }
        i += 1;
    }
    proof {
        assert(physical_files@.take(physical_files.len() as int) =~= physical_files@);
    }
    let song = LogicalSong { id, user_metadata, physical_files, duration, similarity_recs: recs };
    songs.push(song);
    tracker.bump();
    proof {
        assert forall|j: int| 0 <= j < by_file@.len() implies #[trigger] by_file@[j].1 < songs@.len() by {
            if j >= old(lib).by_file@.len() {
                lemma_entries_position(files.files(), physical_files@, k, j - old(lib).by_file@.len());
                assert(by_file@[j] == entries_for_files(files.files(), physical_files@, k)[j - old(lib).by_file@.len()]);
            } else {
                assert(by_file@[j] == old(lib).by_file@[j]);
            }
        }
    }
    *lib = SongLibrary { songs, by_file, by_filename, by_title, by_artist, by_album, tracker };
    proof {
        assert(lib.songs@.take(k as int) =~= old(lib).songs@);
        let t = lib.songs@[k as int];
        assert(t.physical_files@ == physical_files@);
        assert(rec_views(t.similarity_recs@) == recs_for_files(files.files(), physical_files@));
        assert(lib.file_entries() == old(lib).file_entries() + entries_for_files(files.files(), physical_files@, k));
        assert(recs_indexed(*lib, recs_for_files(files.files(), physical_files@), k));
    }
}

/// No two file records share an ID.
pub open spec fn ids_unique_ok(files: Seq<PhysicalFile>) -> bool {
    crate::physical::ids_unique(files)
}

proof fn lemma_entries_position(files: Seq<PhysicalFile>, ids: Seq<FileID>, k: usize, j: int)
    requires
        0 <= j < entries_for_files(files, ids, k).len(),
    ensures
        entries_for_files(files, ids, k)[j].1 == k,
    decreases ids.len(),
{
    let e = entries_for_files(files, ids.drop_last(), k);
    if j < e.len() {
        lemma_entries_position(files, ids.drop_last(), k, j);
    }
}


/// Makes a new song holding one file, with the given ID (assigned by the
/// backing store) and metadata, and indexes it under the file's ID and the
/// record's file name, title, artist and album. The generation is bumped.
pub fn add_new_song(lib: &mut SongLibrary, id: SongID, user_metadata: Metadata, file_id: FileID,
                    similarity_rec: SimilarityRec) -> (index: usize)
    ensures
        index == old(lib).songs().len(),
        final(lib).songs().len() == index + 1,
        final(lib).songs().take(index as int) == old(lib).songs(),
        final(lib).songs()[index as int].id == id,
        final(lib).songs()[index as int].user_metadata@ == user_metadata@,
        final(lib).songs()[index as int].physical_files@ == seq![file_id],
        final(lib).songs()[index as int].duration == similarity_rec.duration,
        final(lib).songs()[index as int].similarity_recs@ == seq![similarity_rec],
        final(lib).file_entries() == old(lib).file_entries().push((file_id, index)),
        final(lib).filename_index() == old(lib).filename_index().insert(similarity_rec.filename@,
            bucket_of(old(lib).filename_index(), similarity_rec.filename@).push(index)),
        final(lib).title_index() == old(lib).title_index().insert(similarity_rec.title@,
            bucket_of(old(lib).title_index(), similarity_rec.title@).push(index)),
        final(lib).artist_index() == old(lib).artist_index().insert(similarity_rec.artist@,
            bucket_of(old(lib).artist_index(), similarity_rec.artist@).push(index)),
        final(lib).album_index() == old(lib).album_index().insert(similarity_rec.album@,
            bucket_of(old(lib).album_index(), similarity_rec.album@).push(index)),
        final(lib).gen() == next_generation(old(lib).gen()),
{
    proof { use_type_invariant(&*lib); }
    let k = lib.songs.len();
    let mut tmp = SongLibrary::new();
    std::mem::swap(&mut tmp, lib);
    let SongLibrary { mut songs, mut by_file, mut by_filename, mut by_title, mut by_artist, mut by_album, mut tracker } = tmp;
    let ghost (m1, m2, m3, m4) = (by_filename@, by_title@, by_artist@, by_album@);
    by_filename.push(similarity_rec.filename.as_str(), k);
    by_title.push(similarity_rec.title.as_str(), k);
    by_artist.push(similarity_rec.artist.as_str(), k);
    by_album.push(similarity_rec.album.as_str(), k);
    let duration = similarity_rec.duration;
    let mut files: Vec<FileID> = Vec::new();
    files.push(file_id);
    let mut recs: Vec<SimilarityRec> = Vec::new();
    recs.push(similarity_rec);
    songs.push(LogicalSong { id, user_metadata, physical_files: files, duration, similarity_recs: recs });
    by_file.push((file_id, k));
    tracker.bump();
    proof {
        let n = (k + 1) as nat;
        assert forall|kk: Seq<char>, j: int| #[trigger] m1.contains_key(kk) && 0 <= j < m1[kk].len() implies #[trigger] m1[kk][j] < n by {}
        assert forall|kk: Seq<char>, j: int| #[trigger] m2.contains_key(kk) && 0 <= j < m2[kk].len() implies #[trigger] m2[kk][j] < n by {}
        assert forall|kk: Seq<char>, j: int| #[trigger] m3.contains_key(kk) && 0 <= j < m3[kk].len() implies #[trigger] m3[kk][j] < n by {}
        assert forall|kk: Seq<char>, j: int| #[trigger] m4.contains_key(kk) && 0 <= j < m4[kk].len() implies #[trigger] m4[kk][j] < n by {}
        lemma_push_in_range(m1, by_filename@, similarity_rec.filename@, k, n);
        lemma_push_in_range(m2, by_title@, similarity_rec.title@, k, n);
        lemma_push_in_range(m3, by_artist@, similarity_rec.artist@, k, n);
        lemma_push_in_range(m4, by_album@, similarity_rec.album@, k, n);
        assert forall|j: int| 0 <= j < by_file@.len() implies #[trigger] by_file@[j].1 < songs@.len() by {
            if j < old(lib).by_file@.len() {
                assert(by_file@[j] == old(lib).by_file@[j]);
            }
        }
    }
    *lib = SongLibrary { songs, by_file, by_filename, by_title, by_artist, by_album, tracker };
    proof {
        assert(lib.songs@.take(k as int) =~= old(lib).songs@);
        assert(lib.songs@[k as int].physical_files@ =~= seq![file_id]);
        assert(lib.songs@[k as int].similarity_recs@ =~= seq![similarity_rec]);
    }
    k
}

/// The tag under which the simple import files a raw tag: "artist", "album"
/// and "title" are kept as they are; any other tag gets the prefix "raw_".
pub open spec fn simple_import_key(k: Seq<char>) -> Seq<char> {
    if k == "artist"@ || k == "album"@ || k == "title"@ { k } else { "raw_"@ + k }
}

proof fn lemma_simple_import_key_injective(a: Seq<char>, b: Seq<char>)
    requires
        a != b,
    ensures
        simple_import_key(a) != simple_import_key(b),
{
    reveal_strlit("artist");
    reveal_strlit("album");
    reveal_strlit("title");
    reveal_strlit("raw_");
    let ka = simple_import_key(a);
    let kb = simple_import_key(b);
    let kept_a = a == "artist"@ || a == "album"@ || a == "title"@;
    let kept_b = b == "artist"@ || b == "album"@ || b == "title"@;
    if kept_a && !kept_b {
        assert(kb[0] == 'r');
        assert(ka[0] != 'r');
    } else if !kept_a && kept_b {
        assert(ka[0] == 'r');
        assert(kb[0] != 'r');
    } else if !kept_a && !kept_b {
        if ka == kb {
            assert(a =~= ka.skip(4));
            assert(b =~= kb.skip(4));
        }
    }
}

/// The `q`-th pair is in `m` under its import tag.
pub open spec fn imported_at(m: Map<Seq<char>, Seq<char>>, s: crate::pairs::Pairs<Seq<char>>, q: int) -> bool {
    m.contains_key(simple_import_key(s[q].0)) && m[simple_import_key(s[q].0)] == s[q].1
}

/// `r` is what the simple import makes of `raw`: every tag is kept, under
/// `simple_import_key` of its name, and nothing else is there.
pub open spec fn simple_imported(raw: Map<Seq<char>, Seq<char>>, r: Map<Seq<char>, Seq<char>>) -> bool {
    &&& forall|k: Seq<char>| #[trigger] raw.contains_key(k) ==>
            r.contains_key(simple_import_key(k)) && r[simple_import_key(k)] == raw[k]
    &&& forall|k2: Seq<char>| #[trigger] r.contains_key(k2) ==>
            exists|k: Seq<char>| raw.contains_key(k) && simple_import_key(k) == k2
}

/// The fallback metadata import, used when the import script fails: the raw
/// "artist", "album" and "title" tags are kept, and every other raw tag is
/// kept under its name prefixed with "raw_".
pub fn simple_import_metadata(raw: &Metadata) -> (r: Metadata)
    ensures
        simple_imported(raw@, r@),
{
    let n = raw.entry_count();
    let ghost s = raw.entry_seq();
    let mut r = Metadata::new();
    let mut i: usize = 0;
    while i < n
        invariant
            i <= n,
            n == s.len(),
            s == raw.entry_seq(),
            crate::pairs::keys_unique(s),
            raw@ == crate::pairs::pairs_to_map(s),
            forall|q: int| 0 <= q < i ==> #[trigger] imported_at(r@, s, q),
            forall|k2: Seq<char>| #[trigger] r@.contains_key(k2) ==>
                exists|q: int| 0 <= q < i && simple_import_key(s[q].0) == k2,
        decreases n - i,
    {
        let key = raw.key_at(i);
        let value = raw.value_at(i).clone();
        let ghost before = r@;
        let new_key = if crate::text::str_eq(key.as_str(), "artist") || crate::text::str_eq(key.as_str(), "album")
            || crate::text::str_eq(key.as_str(), "title") {
            key.clone()
        } else {
            let mut k2 = String::from_str("raw_");
            k2.append(key.as_str());
            k2
        };
        proof {
            assert(new_key@ == simple_import_key(s[i as int].0));
        }
        r.insert(new_key, value);
        proof {
            assert forall|q: int| 0 <= q < i + 1 implies #[trigger] imported_at(r@, s, q) by {
                if q < i {
                    assert(s[q].0 != s[i as int].0);
                    lemma_simple_import_key_injective(s[q].0, s[i as int].0);
                    assert(imported_at(before, s, q));
                } else {
                    assert(q == i);
                    assert(value@ == s[i as int].1);
                }
            }
            assert forall|k2: Seq<char>| #[trigger] r@.contains_key(k2) implies
                exists|q: int| 0 <= q < i + 1 && simple_import_key(s[q].0) == k2 by {
                if k2 != new_key@ {
                    assert(before.contains_key(k2));
                }
            }
        }
        i += 1;
    }
    proof {
        assert forall|k: Seq<char>| #[trigger] raw@.contains_key(k) implies
            r@.contains_key(simple_import_key(k)) && r@[simple_import_key(k)] == raw@[k] by {
            let q = choose|q: int| 0 <= q < s.len() && #[trigger] s[q].0 == k;
            crate::pairs::lemma_lookup(s, q);
            assert(imported_at(r@, s, q));
        }
        assert forall|k2: Seq<char>| #[trigger] r@.contains_key(k2) implies
            exists|k: Seq<char>| raw@.contains_key(k) && simple_import_key(k) == k2 by {
            let q = choose|q: int| 0 <= q < n && simple_import_key(s[q].0) == k2;
            crate::pairs::lemma_lookup(s, q);
        }
    }
    r
}

/// What setting the duration of the song named `id` to `durr` does to a
/// library: the last song with that ID takes the duration (and, when it
/// changed, a `duration` tag with its decimal digits) and the generation is
/// bumped; nothing else changes. When no song has that ID, or its duration
/// already was `durr`, nothing changes at all.
pub open spec fn duration_set(before: SongLibrary, id: SongID, durr: u32, after: SongLibrary, changed: bool) -> bool {
    &&& after.file_entries() == before.file_entries()
    &&& after.filename_index() == before.filename_index()
    &&& after.title_index() == before.title_index()
    &&& after.artist_index() == before.artist_index()
    &&& after.album_index() == before.album_index()
    &&& after.gen() == if changed { next_generation(before.gen()) } else { before.gen() }
    &&& after.songs().len() == before.songs().len()
    &&& changed == (has_song_id(before.songs(), id)
        && before.songs()[last_with_id(before.songs(), id)].duration != durr)
    &&& !changed ==> after.songs() == before.songs()
    &&& has_song_id(before.songs(), id) ==> ({
        let i = last_with_id(before.songs(), id);
        let s = before.songs()[i];
        let t = after.songs()[i];
        &&& forall|j: int| 0 <= j < before.songs().len() && j != i ==> #[trigger] after.songs()[j] == before.songs()[j]
        &&& t.duration == durr && t.id == s.id
        &&& t.physical_files@ == s.physical_files@ && t.similarity_recs@ == s.similarity_recs@
        &&& changed ==> t.user_metadata@ == s.user_metadata@.insert("duration"@, decimal_digits(durr as nat))
    })
}

/// Setting a song's duration twice to the same value does what setting it
/// once does: the second call reports no change and leaves the library as
/// the first left it, and the song then has that duration.
pub proof fn law_set_duration_idempotent(l0: SongLibrary, l1: SongLibrary, l2: SongLibrary, id: SongID,
    durr: u32, first: bool, second: bool)
    requires
        duration_set(l0, id, durr, l1, first),
        duration_set(l1, id, durr, l2, second),
    ensures
        !second,
        l2.songs() == l1.songs(),
        l2.gen() == l1.gen(),
        has_song_id(l0.songs(), id) ==> has_song_id(l2.songs(), id)
            && l2.songs()[last_with_id(l2.songs(), id)].duration == durr,
{
    if has_song_id(l0.songs(), id) {
        lemma_last_with_id(l0.songs(), id);
        let i = last_with_id(l0.songs(), id);
        let s1 = l1.songs();
        assert(s1[i].id == id);
        assert(has_song_id(s1, id));
        lemma_last_with_id(s1, id);
        let k = last_with_id(s1, id);
        assert(k == i) by {
            if k < i {
                assert(s1[i].id != id);
            } else if k > i {
                assert(l0.songs()[k].id == s1[k].id);
            }
        }
    } else {
        assert(l1.songs() == l0.songs());
    }
}

impl LogicalSongRef {
    /// Updates the duration of the song this handle names (as
    /// `LogicalSong::set_duration`). Returns true when it changed, in which
    /// case the generation is bumped and the new duration must be written to
    /// the backing store. A handle naming no song changes nothing.
    #[verifier::spinoff_prover]
    #[verifier::rlimit(40)]
    pub fn set_duration(&self, lib: &mut SongLibrary, durr: u32) -> (changed: bool)
        ensures
            duration_set(*old(lib), *self, durr, *final(lib), changed),
    {
        proof { use_type_invariant(&*lib); }
        match find_song_by_song_id(lib, *self) {
            None => false,
            Some(i) => {
                if lib.songs[i].duration == durr {
                    proof {
                        assert(forall|j: int| 0 <= j < lib.songs@.len() ==> #[trigger] lib.songs@[j] == old(lib).songs@[j]);
                        assert(lib.songs@ =~= old(lib).songs@);
                    }
                    return false;
                }
                let mut tmp = SongLibrary::new();
                std::mem::swap(&mut tmp, lib);
                let SongLibrary { mut songs, by_file, by_filename, by_title, by_artist, by_album, mut tracker } = tmp;
                let mut song = songs.remove(i);
                let changed = song.set_duration(durr);
                songs.insert(i, song);
                tracker.bump();
                proof {
                    assert(forall|j: int| 0 <= j < songs@.len() && j != i ==> #[trigger] songs@[j] == old(lib).songs@[j]);
                }
                *lib = SongLibrary { songs, by_file, by_filename, by_title, by_artist, by_album, tracker };
                changed
            },
        }
    }
}

/// Replaces the metadata of the song at position `index`, if it differs.
/// Returns true when it changed, in which case the generation is bumped and
/// the metadata must be written to the backing store.
pub fn set_song_metadata(lib: &mut SongLibrary, index: usize, metadata: Metadata) -> (changed: bool)
    requires
        index < old(lib).songs().len(),
    ensures
        changed == (old(lib).songs()[index as int].user_metadata@ != metadata@),
        final(lib).songs().len() == old(lib).songs().len(),
        forall|j: int| 0 <= j < old(lib).songs().len() && j != index ==> #[trigger] final(lib).songs()[j] == old(lib).songs()[j],
        final(lib).songs()[index as int].user_metadata@ == metadata@,
        final(lib).songs()[index as int].id == old(lib).songs()[index as int].id,
        final(lib).songs()[index as int].duration == old(lib).songs()[index as int].duration,
        final(lib).songs()[index as int].physical_files@ == old(lib).songs()[index as int].physical_files@,
        final(lib).songs()[index as int].similarity_recs@ == old(lib).songs()[index as int].similarity_recs@,
        final(lib).file_entries() == old(lib).file_entries(),
        final(lib).filename_index() == old(lib).filename_index(),
        final(lib).title_index() == old(lib).title_index(),
        final(lib).artist_index() == old(lib).artist_index(),
        final(lib).album_index() == old(lib).album_index(),
        final(lib).gen() == if changed { next_generation(old(lib).gen()) } else { old(lib).gen() },
{
    proof { use_type_invariant(&*lib); }
    if lib.songs[index].user_metadata.same_as(&metadata) {
        proof {
            assert(forall|j: int| 0 <= j < lib.songs@.len() ==> #[trigger] lib.songs@[j] == old(lib).songs@[j]);
        }
        return false;
    }
    let mut tmp = SongLibrary::new();
    std::mem::swap(&mut tmp, lib);
    let SongLibrary { mut songs, by_file, by_filename, by_title, by_artist, by_album, mut tracker } = tmp;
    let mut song = songs.remove(index);
    song.user_metadata = metadata;
    songs.insert(index, song);
    tracker.bump();
    proof {
        assert(forall|j: int| 0 <= j < songs@.len() && j != index ==> #[trigger] songs@[j] == old(lib).songs@[j]);
    }
    *lib = SongLibrary { songs, by_file, by_filename, by_title, by_artist, by_album, tracker };
    true
}

} // verus!
