//! How values are kept in the database: the schema upgrades to run for a
//! schema version, the encodings of file ID lists and ID lists, and the
//! defaults that fill in missing columns. Running the queries is left to the
//! caller.

use vstd::prelude::*;
use crate::physical::{FileID, ID_SIZE};
use crate::logical::SongID;
use crate::playlist::{PlaylistID, Playmode};
use crate::text::owned;
use crate::errors::strings_view;
use crate::playlist::{sort_order_view, default_sort_order};

verus! {

/// A step that brings the database to the current schema.
#[derive(Clone, Copy, Debug, PartialEq, Eq, Structural)]
pub enum SchemaStep {
    /// Create every table of the current schema (a new database).
    CreateSchema,
    /// Upgrade a version 1 database to version 2.
    Update1To2,
    /// Upgrade a version 2 database to version 3.
    Update2To3,
}

/// The schema version this library reads and writes.
pub const SCHEMA_VERSION: i64 = 3;

/// The steps to run for a database at schema version `v` (0 for a new
/// one), or `None` for a version this library does not know.
pub open spec fn steps_for(v: i64) -> Option<Seq<SchemaStep>> {
    if v == 0 {
        Some(seq![SchemaStep::CreateSchema])
    } else if v == 1 {
        Some(seq![SchemaStep::Update1To2, SchemaStep::Update2To3])
    } else if v == 2 {
        Some(seq![SchemaStep::Update2To3])
    } else if v == 3 {
        Some(Seq::empty())
    } else {
        None
    }
}

/// The steps that bring a database at schema version `user_version` to the
/// current one, or `None` if the version is unknown (such as one written by
/// a newer version).
pub fn schema_steps(user_version: i64) -> (r: Option<Vec<SchemaStep>>)
    ensures
        match r {
            Some(v) => steps_for(user_version) == Some(v@),
            None => steps_for(user_version) is None,
        },
{
    let mut v: Vec<SchemaStep> = Vec::new();
    if user_version == 0 {
        v.push(SchemaStep::CreateSchema);
    } else if user_version == 1 {
        v.push(SchemaStep::Update1To2);
        v.push(SchemaStep::Update2To3);
    } else if user_version == 2 {
        v.push(SchemaStep::Update2To3);
    } else if user_version != 3 {
        return None;
    }
    proof {
        if user_version == 0 {
            assert(v@ =~= seq![SchemaStep::CreateSchema]);
        } else if user_version == 1 {
            assert(v@ =~= seq![SchemaStep::Update1To2, SchemaStep::Update2To3]);
        } else if user_version == 2 {
            assert(v@ =~= seq![SchemaStep::Update2To3]);
        } else {
            assert(v@ =~= Seq::<SchemaStep>::empty());
        }
    }
    Some(v)
}

/// The bytes of a list of file IDs: the IDs one after another.
pub open spec fn blob_of(ids: Seq<FileID>) -> Seq<u8>
    decreases ids.len(),
{
    if ids.len() == 0 {
        Seq::empty()
    } else {
        blob_of(ids.drop_last()) + ids.last()@
    }
}

/// The file IDs held in a blob: one for each whole 32 bytes, in order (a
/// shorter rest is ignored).
pub open spec fn ids_in_blob(blob: Seq<u8>, ids: Seq<FileID>) -> bool {
    &&& ids.len() == blob.len() / 32
    &&& forall|i: int| 0 <= i < ids.len() ==> #[trigger] ids[i]@ == blob.subrange(i * 32, i * 32 + 32)
}

/// The encoding of the first `k` IDs has 32 bytes for each, and holds each
/// at its place.
proof fn lemma_blob_of(ids: Seq<FileID>)
    ensures
        blob_of(ids).len() == 32 * ids.len(),
        forall|i: int| 0 <= i < ids.len() ==> #[trigger] blob_of(ids).subrange(i * 32, i * 32 + 32) == ids[i]@,
    decreases ids.len(),
{
    if ids.len() > 0 {
        let rest = ids.drop_last();
        lemma_blob_of(rest);
        FileID::lemma_len(ids.last());
        let b = blob_of(ids);
        assert forall|i: int| 0 <= i < ids.len() implies #[trigger] b.subrange(i * 32, i * 32 + 32) == ids[i]@ by {
            if i < ids.len() - 1 {
                assert(b.subrange(i * 32, i * 32 + 32) =~= blob_of(rest).subrange(i * 32, i * 32 + 32));
                assert(rest[i] == ids[i]);
            } else {
                assert(b.subrange(i * 32, i * 32 + 32) =~= ids.last()@);
            }
        }
    }
}

/// Encoding file IDs and reading them back gives the same IDs.
pub proof fn law_blob_round_trip(ids: Seq<FileID>, back: Seq<FileID>)
    requires
        ids_in_blob(blob_of(ids), back),
    ensures
        back == ids,
{
    lemma_blob_of(ids);
    assert(blob_of(ids).len() / 32 == ids.len()) by (nonlinear_arith)
        requires blob_of(ids).len() == 32 * ids.len();
    assert forall|i: int| 0 <= i < ids.len() implies back[i] == ids[i] by {
        FileID::lemma_view_injective(back[i], ids[i]);
    }
    assert(back =~= ids);
}

/// The bytes that store a list of file IDs.
pub fn file_ids_to_blob(ids: &Vec<FileID>) -> (r: Vec<u8>)
    ensures
        r@ == blob_of(ids@),
{
    let mut r: Vec<u8> = Vec::new();
    let mut i: usize = 0;
    while i < ids.len()
        invariant
            i <= ids@.len(),
            r@ == blob_of(ids@.take(i as int)),
        decreases ids.len() - i,
    {
        let bytes = ids[i].as_bytes();
        let ghost before = r@;
        let mut j: usize = 0;
        while j < 32
            invariant
                j <= 32,
                bytes@.len() == 32,
                r@ == before + bytes@.take(j as int),
            decreases 32 - j,
        {
            r.push(bytes[j]);
            j += 1;
            assert(r@ =~= before + bytes@.take(j as int));
        }
        assert(bytes@.take(32) =~= bytes@);
        i += 1;
        assert(ids@.take(i as int).drop_last() =~= ids@.take(i - 1));
    }
    assert(ids@.take(ids@.len() as int) =~= ids@);
    r
}

/// The file IDs stored in a blob (see `ids_in_blob`).
pub fn file_ids_from_blob(blob: &[u8]) -> (r: Vec<FileID>)
    ensures
        ids_in_blob(blob@, r@),
{
    let mut r: Vec<FileID> = Vec::new();
    let n = blob.len() / ID_SIZE;
    let mut i: usize = 0;
    while i < n
        invariant
            i <= n,
            n == blob@.len() / 32,
            r@.len() == i,
            forall|k: int| 0 <= k < i ==> #[trigger] r@[k]@ == blob@.subrange(k * 32, k * 32 + 32),
        decreases n - i,
    {
        assert(i * 32 + 32 <= blob@.len()) by (nonlinear_arith)
            requires i < n, n == blob@.len() / 32;
        let len = blob.len();
        let base: usize = i * 32;
        let mut a = [0u8; 32];
        let mut j: usize = 0;
        while j < 32
            invariant
                j <= 32,
                base == i * 32,
                len == blob@.len(),
                base + 32 <= len,
                forall|m: int| 0 <= m < j ==> a@[m] == blob@[base + m],
            decreases 32 - j,
        {
            a[j] = blob[base + j];
            j += 1;
        }
        let id = FileID::from_hash(&a);
        assert(id@ =~= blob@.subrange(i * 32, i * 32 + 32));
        r.push(id);
        i += 1;
    }
    r
}

/// The duration stored for a song, or 296 seconds if none was stored (kept
/// as its low 32 bits).
pub fn song_duration_from_db(duration: Option<i64>) -> (r: u32)
    ensures
        r == (match duration { Some(d) => d, None => 296i64 }) as u32,
{
    let d = match duration {
        Some(d) => d,
        None => 296,
    };
    d as u32
}

/// The position stored for a playlist, or the largest position if none was
/// stored (it then sorts last until renumbered).
pub fn playlist_order_from_db(order: Option<i64>) -> (r: u64)
    ensures
        r == match order { Some(o) => o as u64, None => u64::MAX },
{
    match order {
        Some(o) => o as u64,
        None => u64::MAX,
    }
}

/// How a rule is stored: no rule is stored as nothing.
pub fn rule_code_for_db(code: &str) -> (r: Option<String>)
    ensures
        match r {
            Some(s) => code@.len() > 0 && s@ == code@,
            None => code@.len() == 0,
        },
{
    if code.is_empty() { None } else { Some(owned(code)) }
}

/// How `serde_json::from_str::<Vec<u64>>` reads a text: the numbers, or
/// `None` if the text is not a JSON array of such numbers.
pub uninterp spec fn json_u64s(s: Seq<char>) -> Option<Seq<u64>>;

/// How `serde_json::to_string` writes a list of numbers.
pub uninterp spec fn json_of_u64s(v: Seq<u64>) -> Seq<char>;

/// Reads a JSON array of unsigned numbers.
///
/// Trusted: calls `serde_json::from_str::<Vec<u64>>`; the numbers (or the
/// failure) depend on the text alone (named, not stated). The error's
/// message is not stated.
#[verifier::external_body]
fn parse_json_u64s(s: &str) -> (r: Result<Vec<u64>, String>)
    ensures
        match r {
            Ok(v) => json_u64s(s@) == Some(v@),
            Err(_) => json_u64s(s@) is None,
        },
{
    match serde_json::from_str::<Vec<u64>>(s) {
        Ok(v) => Ok(v),
        Err(e) => Err(format!("{}", e)),
    }
}

/// Writes a JSON array of unsigned numbers.
///
/// Trusted: calls `serde_json::to_string` on the vector, which cannot fail
/// for numbers; the text depends on the numbers alone (named, not stated).
/// Also claimed: `serde_json::from_str::<Vec<u64>>` reads the written text
/// back as the same numbers (a JSON array of integers in decimal).
#[verifier::external_body]
fn write_json_u64s(v: &Vec<u64>) -> (r: String)
    ensures
        r@ == json_of_u64s(v@),
        json_u64s(r@) == Some(v@),
{
    match serde_json::to_string(v) {
        Ok(s) => s,
        Err(_) => String::new(),
    }
}

/// The song IDs that numbers stand for.
pub open spec fn song_ids_of(v: Seq<u64>) -> Seq<SongID> {
    Seq::new(v.len(), |i: int| SongID::from_value(v[i]))
}

/// The hand-added songs of a playlist as stored: no list stored means no
/// songs; a stored list that is not a JSON array of numbers is an error.
pub fn manual_ids_from_db(stored: Option<&str>) -> (r: Result<Vec<SongID>, String>)
    ensures
        match stored {
            None => r is Ok && r->Ok_0@ == Seq::<SongID>::empty(),
            Some(s) => match json_u64s(s@) {
                Some(v) => r is Ok && r->Ok_0@ == song_ids_of(v),
                None => r is Err,
            },
        },
{
    match stored {
        None => {
            let v: Vec<SongID> = Vec::new();
            assert(v@ =~= Seq::<SongID>::empty());
            Ok(v)
        },
        Some(s) => match parse_json_u64s(s) {
            Err(e) => Err(e),
            Ok(nums) => {
                let mut ids: Vec<SongID> = Vec::new();
                let mut i: usize = 0;
                while i < nums.len()
                    invariant
                        i <= nums@.len(),
                        ids@ == song_ids_of(nums@).take(i as int),
                    decreases nums.len() - i,
                {
                    ids.push(SongID::from_inner(nums[i]));
                    i += 1;
                    proof {
                        SongID::lemma_from_value(nums@[i - 1]);
                        assert(ids@ =~= song_ids_of(nums@).take(i as int));
                    }
                }
                assert(song_ids_of(nums@).take(nums@.len() as int) =~= song_ids_of(nums@));
                Ok(ids)
            },
        },
    }
}

/// The numbers of song IDs.
pub open spec fn values_of(ids: Seq<SongID>) -> Seq<u64> {
    ids.map_values(|id: SongID| id.value())
}

/// How the hand-added songs of a playlist are stored: a JSON array of their
/// numbers. Reading the text back gives the same songs.
pub fn manual_ids_to_db(ids: &[SongID]) -> (r: String)
    ensures
        r@ == json_of_u64s(values_of(ids@)),
        json_u64s(r@) == Some(values_of(ids@)),
        song_ids_of(values_of(ids@)) == ids@,
{
    let mut nums: Vec<u64> = Vec::new();
    let mut i: usize = 0;
    while i < ids.len()
        invariant
            i <= ids@.len(),
            nums@ == values_of(ids@).take(i as int),
        decreases ids.len() - i,
    {
        nums.push(ids[i].as_inner());
        i += 1;
        assert(nums@ =~= values_of(ids@).take(i as int));
    }
    assert(values_of(ids@).take(ids@.len() as int) =~= values_of(ids@));
    proof {
        assert forall|k: int| 0 <= k < ids@.len() implies #[trigger] song_ids_of(values_of(ids@))[k] == ids@[k] by {
            SongID::lemma_from_value(ids@[k].value());
            SongID::lemma_value_injective(SongID::from_value(ids@[k].value()), ids@[k]);
        }
        assert(song_ids_of(values_of(ids@)) =~= ids@);
    }
    write_json_u64s(&nums)
}

/// How `serde_json::from_str::<Vec<String>>` reads a text: the strings, or
/// `None` if the text is not a JSON array of strings.
pub uninterp spec fn json_strings(s: Seq<char>) -> Option<Seq<Seq<char>>>;

/// How `serde_json::to_string` writes a list of strings.
pub uninterp spec fn json_of_strings(v: Seq<Seq<char>>) -> Seq<char>;

/// Reads a JSON array of strings.
///
/// Trusted: calls `serde_json::from_str::<Vec<String>>`; the strings (or the
/// failure) depend on the text alone (named, not stated). The error's
/// message is not stated.
#[verifier::external_body]
fn parse_json_strings(s: &str) -> (r: Result<Vec<String>, String>)
    ensures
        match r {
            Ok(v) => json_strings(s@) == Some(strings_view(v@)),
            Err(_) => json_strings(s@) is None,
        },
{
    match serde_json::from_str::<Vec<String>>(s) {
        Ok(v) => Ok(v),
        Err(e) => Err(format!("{}", e)),
    }
}

/// Writes a JSON array of strings.
///
/// Trusted: calls `serde_json::to_string` on the vector, which cannot fail
/// for strings; the text depends on the strings alone (named, not stated).
/// Also claimed: `serde_json::from_str::<Vec<String>>` reads the written
/// text back as the same strings (each is written as an escaped JSON
/// string).
#[verifier::external_body]
fn write_json_strings(v: &Vec<String>) -> (r: String)
    ensures
        r@ == json_of_strings(strings_view(v@)),
        json_strings(r@) == Some(strings_view(v@)),
{
    match serde_json::to_string(v) {
        Ok(s) => s,
        Err(_) => String::new(),
    }
}

/// How `serde_json::from_str::<Vec<(String, bool)>>` reads a text: the
/// (tag, descending) pairs, or `None` if the text is not a JSON array of
/// such pairs.
pub uninterp spec fn json_sort_order(s: Seq<char>) -> Option<Seq<(Seq<char>, bool)>>;

/// How `serde_json::to_string` writes a list of (tag, descending) pairs.
pub uninterp spec fn json_of_sort_order(v: Seq<(Seq<char>, bool)>) -> Seq<char>;

/// Reads a JSON array of (string, boolean) pairs.
///
/// Trusted: calls `serde_json::from_str::<Vec<(String, bool)>>`; the pairs
/// (or the failure) depend on the text alone (named, not stated). The
/// error's message is not stated.
#[verifier::external_body]
fn parse_json_sort_order(s: &str) -> (r: Result<Vec<(String, bool)>, String>)
    ensures
        match r {
            Ok(v) => json_sort_order(s@) == Some(sort_order_view(v@)),
            Err(_) => json_sort_order(s@) is None,
        },
{
    match serde_json::from_str::<Vec<(String, bool)>>(s) {
        Ok(v) => Ok(v),
        Err(e) => Err(format!("{}", e)),
    }
}

/// Writes a JSON array of (string, boolean) pairs.
///
/// Trusted: calls `serde_json::to_string` on the slice, which cannot fail
/// for such pairs; the text depends on the pairs alone (named, not stated).
/// Also claimed: `serde_json::from_str::<Vec<(String, bool)>>` reads the
/// written text back as the same pairs (each is written as a two-element
/// JSON array).
#[verifier::external_body]
fn write_json_sort_order(v: &[(String, bool)]) -> (r: String)
    ensures
        r@ == json_of_sort_order(sort_order_view(v@)),
        json_sort_order(r@) == Some(sort_order_view(v@)),
{
    match serde_json::to_string(v) {
        Ok(s) => s,
        Err(_) => String::new(),
    }
}

/// A file's relative paths as stored: a JSON array of strings; anything else
/// is an error.
pub fn relative_paths_from_db(stored: &str) -> (r: Result<Vec<String>, String>)
    ensures
        match json_strings(stored@) {
            Some(p) => r is Ok && strings_view(r->Ok_0@) == p,
            None => r is Err,
        },
{
    parse_json_strings(stored)
}

/// How a file's relative paths are stored: a JSON array of strings. Reading
/// the text back gives the same paths.
pub fn relative_paths_to_db(paths: &Vec<String>) -> (r: String)
    ensures
        r@ == json_of_strings(strings_view(paths@)),
        json_strings(r@) == Some(strings_view(paths@)),
{
    write_json_strings(paths)
}

/// A playlist's sort order as stored: none stored means the default sort
/// order; a stored text that is not a JSON array of (tag, descending) pairs
/// is an error.
pub fn sort_order_from_db(stored: Option<&str>) -> (r: Result<Vec<(String, bool)>, String>)
    ensures
        match stored {
            None => r is Ok && sort_order_view(r->Ok_0@)
                == seq![("disc#"@, false), ("track#"@, false), ("album"@, false), ("title"@, false)],
            Some(s) => match json_sort_order(s@) {
                Some(o) => r is Ok && sort_order_view(r->Ok_0@) == o,
                None => r is Err,
            },
        },
{
    match stored {
        None => Ok(default_sort_order()),
        Some(s) => parse_json_sort_order(s),
    }
}

/// How a playlist's sort order is stored: a JSON array of (tag, descending)
/// pairs. Reading the text back gives the same order.
pub fn sort_order_to_db(order: &[(String, bool)]) -> (r: String)
    ensures
        r@ == json_of_sort_order(sort_order_view(order@)),
        json_sort_order(r@) == Some(sort_order_view(order@)),
{
    write_json_sort_order(order)
}

/// A playlist's stored columns, with the defaults for missing ones filled
/// in (the column list and sort order are read by the caller).
pub struct PlaylistRow {
    pub id: PlaylistID,
    pub parent_id: Option<PlaylistID>,
    pub parent_order: u64,
    pub rule_code: String,
    pub manually_added_ids: Vec<SongID>,
    pub shuffled: bool,
    pub playmode: Playmode,
}

/// Fills in a playlist's stored values: a missing position sorts last, a
/// missing rule is empty, missing hand-added songs are none, a missing
/// shuffle flag is off and a missing playmode is the one stored as 0. An
/// unreadable hand-added list is an error.
pub fn playlist_row(id: i64, parent_id: Option<i64>, parent_order: Option<i64>, rule_code: Option<String>,
    manually_added_ids: Option<&str>, shuffled: Option<bool>, playmode: Option<i64>) -> (r: Result<PlaylistRow, String>)
    ensures
        r is Ok <==> (manually_added_ids is None || json_u64s(manually_added_ids->0@) is Some),
        r is Ok ==> {
            let row = r->Ok_0;
            &&& row.id.value() == id as u64
            &&& row.parent_id == match parent_id { Some(p) => Some(PlaylistID::from_value(p as u64)), None => None }
            &&& row.parent_order == match parent_order { Some(o) => o as u64, None => u64::MAX }
            &&& row.rule_code@ == match rule_code { Some(c) => c@, None => Seq::<char>::empty() }
            &&& row.manually_added_ids@ == match manually_added_ids {
                Some(s) => song_ids_of(json_u64s(s@)->0),
                None => Seq::<SongID>::empty(),
            }
            &&& row.shuffled == match shuffled { Some(b) => b, None => false }
            &&& row.playmode == Playmode::from_db_spec(match playmode { Some(p) => p, None => 0i64 })
        },
{
    let manual = match manual_ids_from_db(manually_added_ids) {
        Ok(v) => v,
        Err(e) => return Err(e),
    };
    let parent = match parent_id {
        Some(p) => Some(PlaylistID::from_inner(p as u64)),
        None => None,
    };
    proof {
        if let Some(p) = parent_id {
            PlaylistID::lemma_from_value(p as u64);
        }
    }
    Ok(PlaylistRow {
        id: PlaylistID::from_inner(id as u64),
        parent_id: parent,
        parent_order: playlist_order_from_db(parent_order),
        rule_code: match rule_code {
            Some(c) => c,
            None => String::new(),
        },
        manually_added_ids: manual,
        shuffled: match shuffled {
            Some(b) => b,
            None => false,
        },
        playmode: Playmode::from_db_value(match playmode {
            Some(p) => p,
            None => 0,
        }),
    })
}

} // verus!
