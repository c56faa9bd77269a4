//! Playlists. A playlist is an optional rule that automatically determines
//! some of its songs, plus a list of songs that are unconditionally in it.
//! Its songs are either sorted by a list of metadata tags or shuffled.
//! Playlists form a tree: each has an optional parent and an ordered list of
//! children.

use vstd::prelude::*;
use crate::logical::{SongID, SongLibrary, LogicalSong, has_song_id, last_with_id, find_song_by_song_id, get_song_by_song_id};
use crate::metadata::{Metadata, value_or_empty};
use crate::generation::{GenerationTracker, GenerationValue, next_generation};
use crate::logical::get_generation;
use crate::rules::{lua_new, compile_song_rule, gather_songs, found_manual, rule_compiles, rule_selection};
use crate::text::{str_eq, owned};

verus! {

broadcast use vstd::seq_lib::group_to_multiset_ensures;

/// Whether and how to loop.
#[derive(Clone, Copy, Debug, PartialEq, Eq, Structural)]
pub enum Playmode {
    End,
    Loop,
    LoopOne,
}

impl Playmode {
    /// The number under which this mode is stored.
    pub open spec fn db_value(&self) -> i8 {
        match *self {
            Playmode::End => 0i8,
            Playmode::Loop => 1i8,
            Playmode::LoopOne => 2i8,
        }
    }

    /// The number under which this mode is stored.
    pub fn to_db_value(&self) -> (r: i8)
        ensures
            r == self.db_value(),
    {
        match self {
            Playmode::End => 0,
            Playmode::Loop => 1,
            Playmode::LoopOne => 2,
        }
    }

    /// The mode stored under `n`; unknown numbers are read as `End`.
    pub open spec fn from_db_spec(n: i64) -> Playmode {
        if n == 1 { Playmode::Loop } else if n == 2 { Playmode::LoopOne } else { Playmode::End }
    }

    /// The mode stored under `n`; unknown numbers are read as `End`.
    pub fn from_db_value(n: i64) -> (r: Playmode)
        ensures
            r == Playmode::from_db_spec(n),
    {
        match n {
            1 => Playmode::Loop,
            2 => Playmode::LoopOne,
            _ => Playmode::End,
        }
    }

    /// The mode that follows this one in the cycle End, Loop, LoopOne, End.
    pub open spec fn bump_spec(&self) -> Playmode {
        match *self {
            Playmode::End => Playmode::Loop,
            Playmode::Loop => Playmode::LoopOne,
            Playmode::LoopOne => Playmode::End,
        }
    }

    /// The next mode in the cycle End, Loop, LoopOne, End.
    pub fn bump(&self) -> (r: Playmode)
        ensures
            r == self.bump_spec(),
    {
        match self {
            Playmode::End => Playmode::Loop,
            Playmode::Loop => Playmode::LoopOne,
            Playmode::LoopOne => Playmode::End,
        }
    }
}

/// Bumping the playmode three times gives it back: End, Loop, LoopOne form
/// a cycle.
pub proof fn law_playmode_bump_cycles(m: Playmode)
    ensures
        m.bump_spec().bump_spec().bump_spec() == m,
{
}

/// A playmode stored and read back is the same playmode.
pub proof fn law_playmode_db_round_trip(m: Playmode)
    ensures
        Playmode::from_db_spec(m.db_value() as i64) == m,
{
}

/// A playlist ID is a non-zero ID, unique within the database, that identifies
/// a particular playlist.
#[derive(Clone, Copy, PartialEq, Eq, Structural, PartialOrd, Ord, Hash, Debug)]
pub struct PlaylistID {
    inner: u64,
}

/// A handle on a playlist is its ID: it names the playlist within a
/// `PlaylistTree`.
pub type PlaylistRef = PlaylistID;

impl PlaylistID {
    /// The number this ID holds.
    pub closed spec fn value(&self) -> u64 {
        self.inner
    }

    /// The ID holding the number `v`.
    pub closed spec fn from_value(v: u64) -> PlaylistID {
        PlaylistID { inner: v }
    }

    /// `from_value` holds the number it was given.
    pub proof fn lemma_from_value(v: u64)
        ensures
            PlaylistID::from_value(v).value() == v,
    {
    }

    pub fn from_inner(v: u64) -> (r: PlaylistID)
        ensures
            r.value() == v,
            r == PlaylistID::from_value(v),
    {
        PlaylistID { inner: v }
    }

    pub fn as_inner(&self) -> (r: u64)
        ensures
            r == self.value(),
    {
        self.inner
    }

    /// IDs holding the same number are the same ID.
    pub proof fn lemma_value_injective(a: PlaylistID, b: PlaylistID)
        ensures
            (a.value() == b.value()) <==> (a == b),
    {
    }
}

/// A column of a playlist's view: a metadata tag and the column's width.
pub struct Column {
    pub tag: String,
    pub width: u32,
}

impl Clone for Column {
    fn clone(&self) -> (r: Column)
        ensures
            r == *self,
    {
        Column { tag: self.tag.clone(), width: self.width }
    }
}

/// The characters and width of each column.
pub open spec fn columns_view(v: Seq<Column>) -> Seq<(Seq<char>, u32)> {
    v.map_values(|c: Column| (c.tag@, c.width))
}

/// The characters and direction of each sort key.
pub open spec fn sort_order_view(v: Seq<(String, bool)>) -> Seq<(Seq<char>, bool)> {
    v.map_values(|e: (String, bool)| (e.0@, e.1))
}

/// The default width of a new column.
pub const DEFAULT_COLUMN_WIDTH: u32 = 117;

/// The columns a new playlist gets: title (220), duration (50), artist and
/// album (default width).
pub fn default_columns() -> (r: Vec<Column>)
    ensures
        columns_view(r@) == seq![("title"@, 220u32), ("duration"@, 50u32), ("artist"@, DEFAULT_COLUMN_WIDTH), ("album"@, DEFAULT_COLUMN_WIDTH)],
{
    let mut r: Vec<Column> = Vec::new();
    r.push(Column { tag: "title".to_owned(), width: 220 });
    r.push(Column { tag: "duration".to_owned(), width: 50 });
    r.push(Column { tag: "artist".to_owned(), width: DEFAULT_COLUMN_WIDTH });
    r.push(Column { tag: "album".to_owned(), width: DEFAULT_COLUMN_WIDTH });
    assert(columns_view(r@) =~= seq![("title"@, 220u32), ("duration"@, 50u32), ("artist"@, DEFAULT_COLUMN_WIDTH), ("album"@, DEFAULT_COLUMN_WIDTH)]);
    r
}

/// The sort order a new playlist gets: disc, track, album, title, all
/// ascending.
pub fn default_sort_order() -> (r: Vec<(String, bool)>)
    ensures
        sort_order_view(r@) == seq![("disc#"@, false), ("track#"@, false), ("album"@, false), ("title"@, false)],
{
    let mut r: Vec<(String, bool)> = Vec::new();
    r.push(("disc#".to_owned(), false));
    r.push(("track#".to_owned(), false));
    r.push(("album".to_owned(), false));
    r.push(("title".to_owned(), false));
    assert(sort_order_view(r@) =~= seq![("disc#"@, false), ("track#"@, false), ("album"@, false), ("title"@, false)]);
    r
}

/// The result of comparing two things.
#[derive(Clone, Copy, Debug, PartialEq, Eq, Structural)]
pub enum Order {
    Less,
    Equal,
    Greater,
}

/// The opposite order.
pub open spec fn reversed(o: Order) -> Order {
    match o {
        Order::Less => Order::Greater,
        Order::Equal => Order::Equal,
        Order::Greater => Order::Less,
    }
}

/// How `alphanumeric_sort::compare_str` orders two strings.
pub uninterp spec fn alnum_order(a: Seq<char>, b: Seq<char>) -> Order;

/// Compares two strings with `alphanumeric_sort::compare_str`, which orders
/// runs of digits by their numeric value.
///
/// Trusted: the result is what `compare_str` returns (named, not stated).
#[verifier::external_body]
fn alnum_compare(a: &str, b: &str) -> (r: Order)
    ensures
        r == alnum_order(a@, b@),
{
    match alphanumeric_sort::compare_str(a, b) {
        std::cmp::Ordering::Less => Order::Less,
        std::cmp::Ordering::Equal => Order::Equal,
        std::cmp::Ordering::Greater => Order::Greater,
    }
}

/// A random position in `lo..hi`.
///
/// Trusted: `rand::Rng::gen_range` on the thread-local generator returns a
/// value in the range; it panics on an empty range, which the precondition
/// excludes.
#[verifier::external_body]
fn random_index(lo: usize, hi: usize) -> (r: usize)
    requires
        lo < hi,
    ensures
        lo <= r < hi,
{
    rand::Rng::gen_range(&mut rand::thread_rng(), lo..hi)
}

/// The sort keys of a song: for each sort tag, its value (or the empty
/// string), followed by the song's ID.
pub struct SortKey {
    pub values: Vec<String>,
    pub id: u64,
}

/// The values of a sort key, as characters.
pub open spec fn key_values(k: SortKey) -> Seq<Seq<char>> {
    k.values@.map_values(|s: String| s@)
}

/// How two songs' sort keys are ordered, starting at tag `i`: by the first
/// tag whose values `alnum_order` tells apart (reversed for a descending
/// tag), and by ID if there is none.
pub open spec fn key_order_from(a: Seq<Seq<char>>, b: Seq<Seq<char>>, desc: Seq<bool>, ida: u64, idb: u64, i: int) -> Order
    decreases desc.len() - i,
{
    if i >= desc.len() || i < 0 {
        if ida < idb { Order::Less } else if ida == idb { Order::Equal } else { Order::Greater }
    } else {
        let o = alnum_order(a[i], b[i]);
        let o = if desc[i] { reversed(o) } else { o };
        if o != Order::Equal { o } else { key_order_from(a, b, desc, ida, idb, i + 1) }
    }
}

/// How two songs' sort keys are ordered.
pub open spec fn key_order(a: SortKey, b: SortKey, desc: Seq<bool>) -> Order {
    key_order_from(key_values(a), key_values(b), desc, a.id, b.id, 0)
}

/// From key `j` on, up to a key `i` where the values differ, the keys
/// before `i` (all equal) leave the answer to key `i`.
proof fn lemma_key_order_decided_at(a: Seq<Seq<char>>, b: Seq<Seq<char>>, desc: Seq<bool>, ida: u64, idb: u64,
    i: int, j: int)
    requires
        0 <= j <= i < desc.len(),
        forall|k: int| 0 <= k < i ==> #[trigger] alnum_order(a[k], b[k]) == Order::Equal,
        alnum_order(a[i], b[i]) != Order::Equal,
    ensures
        key_order_from(a, b, desc, ida, idb, j)
            == if desc[i] { reversed(alnum_order(a[i], b[i])) } else { alnum_order(a[i], b[i]) },
    decreases i - j,
{
    if j < i {
        assert(alnum_order(a[j], b[j]) == Order::Equal);
        lemma_key_order_decided_at(a, b, desc, ida, idb, i, j + 1);
    }
}

/// Two sort keys are ordered by the first key at which their values compare
/// differently: as `alnum_order` orders those values if that key is
/// ascending, the other way round if it is descending. The direction of
/// that key alone decides, whatever the directions of the others.
pub proof fn law_first_differing_key_decides(a: SortKey, b: SortKey, desc: Seq<bool>, i: int)
    requires
        0 <= i < desc.len(),
        forall|k: int| 0 <= k < i ==> #[trigger] alnum_order(key_values(a)[k], key_values(b)[k]) == Order::Equal,
        alnum_order(key_values(a)[i], key_values(b)[i]) != Order::Equal,
    ensures
        key_order(a, b, desc) == if desc[i] {
            reversed(alnum_order(key_values(a)[i], key_values(b)[i]))
        } else {
            alnum_order(key_values(a)[i], key_values(b)[i])
        },
        key_order(a, b, desc) != Order::Equal,
{
    lemma_key_order_decided_at(key_values(a), key_values(b), desc, a.id, b.id, i, 0);
}

fn compare_keys(a: &SortKey, b: &SortKey, desc: &Vec<bool>) -> (r: Order)
    requires
        a.values@.len() == desc@.len(),
        b.values@.len() == desc@.len(),
    ensures
        r == key_order(*a, *b, desc@),
{
    let mut i: usize = 0;
    while i < desc.len()
        invariant
            i <= desc.len(),
            a.values@.len() == desc@.len(),
            b.values@.len() == desc@.len(),
            key_order(*a, *b, desc@) == key_order_from(key_values(*a), key_values(*b), desc@, a.id, b.id, i as int),
        decreases desc.len() - i,
    {
        let o = alnum_compare(a.values[i].as_str(), b.values[i].as_str());
        let o = if desc[i] {
            match o {
                Order::Less => Order::Greater,
                Order::Equal => Order::Equal,
                Order::Greater => Order::Less,
            }
        } else {
            o
        };
        proof {
            assert(key_values(*a)[i as int] == a.values@[i as int]@);
            assert(key_values(*b)[i as int] == b.values@[i as int]@);
        }
        if o != Order::Equal {
            return o;
        }
        i += 1;
    }
    if a.id < b.id {
        Order::Less
    } else if a.id == b.id {
        Order::Equal
    } else {
        Order::Greater
    }
}

/// The user metadata of the song with ID `id` (the one added last, if several
/// share it), or no metadata if the library has no such song.
pub open spec fn metadata_of(songs: Seq<LogicalSong>, id: SongID) -> Map<Seq<char>, Seq<char>> {
    if has_song_id(songs, id) { songs[last_with_id(songs, id)].user_metadata@ } else { Map::empty() }
}

/// The values a song is sorted by: for each sort tag, the song's value for
/// it, or the empty string.
pub open spec fn sort_values(songs: Seq<LogicalSong>, order: Seq<(Seq<char>, bool)>, id: SongID) -> Seq<Seq<char>> {
    Seq::new(order.len(), |i: int| value_or_empty(metadata_of(songs, id), order[i].0))
}

/// Whether each sort tag sorts in descending order.
pub open spec fn sort_directions(order: Seq<(Seq<char>, bool)>) -> Seq<bool> {
    order.map_values(|e: (Seq<char>, bool)| e.1)
}

/// How two songs are ordered under a sort order: tag by tag, then by ID.
pub open spec fn song_order(songs: Seq<LogicalSong>, order: Seq<(Seq<char>, bool)>, a: SongID, b: SongID) -> Order {
    key_order_from(sort_values(songs, order, a), sort_values(songs, order, b), sort_directions(order), a.value(), b.value(), 0)
}

/// Two songs are ordered by the first sort tag whose values `alnum_order`
/// tells apart: as it orders them if that tag sorts ascending, the other
/// way round if it sorts descending, whatever the other tags' directions.
pub proof fn law_first_differing_tag_decides(songs: Seq<LogicalSong>, order: Seq<(Seq<char>, bool)>,
    x: SongID, y: SongID, i: int)
    requires
        0 <= i < order.len(),
        forall|k: int| 0 <= k < i ==>
            #[trigger] alnum_order(sort_values(songs, order, x)[k], sort_values(songs, order, y)[k]) == Order::Equal,
        alnum_order(sort_values(songs, order, x)[i], sort_values(songs, order, y)[i]) != Order::Equal,
    ensures
        song_order(songs, order, x, y) == if order[i].1 {
            reversed(alnum_order(sort_values(songs, order, x)[i], sort_values(songs, order, y)[i]))
        } else {
            alnum_order(sort_values(songs, order, x)[i], sort_values(songs, order, y)[i])
        },
{
    assert(sort_directions(order)[i] == order[i].1);
    lemma_key_order_decided_at(sort_values(songs, order, x), sort_values(songs, order, y), sort_directions(order),
        x.value(), y.value(), i, 0);
}

/// The song at `i + 1` is not ordered before the one at `i`, unless the
/// comparison also orders the one at `i` before it (which a comparison that
/// gives opposite answers for swapped arguments never does).
pub open spec fn adjacent_in_order(s: Seq<SongID>, songs: Seq<LogicalSong>, order: Seq<(Seq<char>, bool)>, i: int) -> bool {
    song_order(songs, order, s[i + 1], s[i]) != Order::Less
        || song_order(songs, order, s[i], s[i + 1]) == Order::Less
}

/// No song is ordered before the one preceding it.
pub open spec fn in_song_order(s: Seq<SongID>, songs: Seq<LogicalSong>, order: Seq<(Seq<char>, bool)>) -> bool {
    forall|i: int| 0 <= i < s.len() - 1 ==> #[trigger] adjacent_in_order(s, songs, order, i)
}

/// The sort key of the song with ID `id`.
fn sort_key(lib: &SongLibrary, order: &Vec<(String, bool)>, id: SongID) -> (k: SortKey)
    ensures
        key_values(k) == sort_values(lib.songs(), sort_order_view(order@), id),
        k.values@.len() == order@.len(),
        k.id == id.value(),
{
    let song = get_song_by_song_id(lib, id);
    let mut values: Vec<String> = Vec::new();
    let ghost want = sort_values(lib.songs(), sort_order_view(order@), id);
    let mut i: usize = 0;
    while i < order.len()
        invariant
            i <= order.len(),
            values@.len() == i,
            want == sort_values(lib.songs(), sort_order_view(order@), id),
            match song {
                Some(s) => has_song_id(lib.songs(), id) && *s == lib.songs()[last_with_id(lib.songs(), id)],
                None => !has_song_id(lib.songs(), id),
            },
            forall|j: int| 0 <= j < i ==> #[trigger] values@[j]@ == want[j],
        decreases order.len() - i,
    {
        let v = match song {
            Some(s) => s.get_metadata().get_or_empty(order[i].0.as_str()),
            None => String::new(),
        };
        values.push(v);
        i += 1;
    }
    let k = SortKey { values, id: id.as_inner() };
    assert(key_values(k) =~= want);
    k
}

/// The values of a playlist's sort order, as characters and flags.
fn directions_of(order: &Vec<(String, bool)>) -> (d: Vec<bool>)
    ensures
        d@ == sort_directions(sort_order_view(order@)),
{
    let mut d: Vec<bool> = Vec::new();
    let mut i: usize = 0;
    while i < order.len()
        invariant
            i <= order.len(),
            d@ == sort_directions(sort_order_view(order@)).take(i as int),
        decreases order.len() - i,
    {
        d.push(order[i].1);
        i += 1;
        assert(d@ =~= sort_directions(sort_order_view(order@)).take(i as int));
    }
    assert(sort_directions(sort_order_view(order@)).take(order@.len() as int) =~= sort_directions(sort_order_view(order@)));
    d
}

/// The keys match the songs: key `p` is the sort key of song `ids[p]`.
pub open spec fn keys_match(ids: Seq<SongID>, keys: Seq<SortKey>, songs: Seq<LogicalSong>, order: Seq<(Seq<char>, bool)>) -> bool {
    &&& keys.len() == ids.len()
    &&& forall|p: int| 0 <= p < keys.len() ==> #[trigger] key_values(keys[p]) == sort_values(songs, order, ids[p])
    &&& forall|p: int| 0 <= p < keys.len() ==> #[trigger] keys[p].id == ids[p].value()
    &&& forall|p: int| 0 <= p < keys.len() ==> #[trigger] keys[p].values@.len() == order.len()
}

/// Inserting a song just after the last one it is not ordered before keeps
/// a list in order.
#[verifier::spinoff_prover]
#[verifier::rlimit(60)]
proof fn lemma_insert_keeps_order(old_r: Seq<SongID>, x: SongID, j: int, songs: Seq<LogicalSong>,
    order: Seq<(Seq<char>, bool)>)
    requires
        0 <= j <= old_r.len(),
        in_song_order(old_r, songs, order),
        j > 0 ==> song_order(songs, order, x, old_r[j - 1]) != Order::Less,
        forall|i: int| j <= i < old_r.len() ==> song_order(songs, order, x, #[trigger] old_r[i]) == Order::Less,
    ensures
        in_song_order(old_r.insert(j, x), songs, order),
{
    let r = old_r.insert(j, x);
    assert forall|i: int| 0 <= i < r.len() - 1 implies #[trigger] adjacent_in_order(r, songs, order, i) by {
        if i + 1 < j {
            assert(adjacent_in_order(old_r, songs, order, i));
            assert(r[i] == old_r[i] && r[i + 1] == old_r[i + 1]);
        } else if i + 1 == j {
            assert(r[i + 1] == x && r[i] == old_r[i]);
        } else if i == j {
            assert(r[i] == x && r[i + 1] == old_r[i]);
            assert(song_order(songs, order, x, old_r[i]) == Order::Less);
        } else {
            assert(adjacent_in_order(old_r, songs, order, i - 1));
            assert(r[i] == old_r[i - 1] && r[i + 1] == old_r[i]);
        }
    }
}

/// Sorts songs by their keys, stably (insertion sort).
#[verifier::spinoff_prover]
fn sort_song_ids(ids: &Vec<SongID>, keys: &Vec<SortKey>, desc: &Vec<bool>, Ghost(songs): Ghost<Seq<LogicalSong>>,
    Ghost(order): Ghost<Seq<(Seq<char>, bool)>>) -> (r: Vec<SongID>)
    requires
        keys_match(ids@, keys@, songs, order),
        desc@ == sort_directions(order),
    ensures
        r@.to_multiset() == ids@.to_multiset(),
        r@.len() == ids@.len(),
        in_song_order(r@, songs, order),
{
    let mut r: Vec<SongID> = Vec::new();
    let mut rk: Vec<usize> = Vec::new();
    let mut n: usize = 0;
    while n < ids.len()
        invariant
            n <= ids.len(),
            keys_match(ids@, keys@, songs, order),
            desc@ == sort_directions(order),
            r@.len() == n,
            rk@.len() == n,
            forall|i: int| 0 <= i < n ==> #[trigger] rk@[i] < n && r@[i] == ids@[rk@[i] as int],
            r@.to_multiset() == ids@.take(n as int).to_multiset(),
            in_song_order(r@, songs, order),
        decreases ids.len() - n,
    {
        let mut j: usize = r.len();
        while j > 0 && compare_keys(&keys[n], &keys[rk[j - 1]], desc) == Order::Less
            invariant
                j <= r@.len(),
                n < ids@.len(),
                r@.len() == n,
                rk@.len() == n,
                keys_match(ids@, keys@, songs, order),
                desc@ == sort_directions(order),
                forall|i: int| 0 <= i < n ==> #[trigger] rk@[i] < n && r@[i] == ids@[rk@[i] as int],
                forall|i: int| j <= i < n ==> song_order(songs, order, ids@[n as int], #[trigger] r@[i]) == Order::Less,
            decreases j,
        {
            proof {
                let q = rk@[j - 1] as int;
                assert(rk@[j - 1] < n && r@[j - 1] == ids@[q]);
                assert(key_values(keys@[n as int]) == sort_values(songs, order, ids@[n as int]));
                assert(key_values(keys@[q]) == sort_values(songs, order, ids@[q]));
                assert(keys@[n as int].id == ids@[n as int].value());
                assert(keys@[q].id == ids@[q].value());
            }
            j -= 1;
        }
        let ghost old_r = r@;
        proof {
            if j > 0 {
                let q = rk@[j - 1] as int;
                assert(rk@[j - 1] < n && r@[j - 1] == ids@[q]);
                assert(key_values(keys@[n as int]) == sort_values(songs, order, ids@[n as int]));
                assert(key_values(keys@[q]) == sort_values(songs, order, ids@[q]));
                assert(keys@[n as int].id == ids@[n as int].value());
                assert(keys@[q].id == ids@[q].value());
                assert(song_order(songs, order, ids@[n as int], r@[j - 1]) != Order::Less);
            }
        }
        let x = ids[n];
        let ghost old_rk = rk@;
        r.insert(j, x);
        rk.insert(j, n);
        proof {
            assert(ids@.take(n + 1) =~= ids@.take(n as int).push(x));
            vstd::seq_lib::to_multiset_build(ids@.take(n as int), x);
            vstd::seq_lib::to_multiset_insert(old_r, j as int, x);
            assert(r@ =~= old_r.insert(j as int, x));
            assert forall|i: int| 0 <= i < n + 1 implies #[trigger] rk@[i] < n + 1 && r@[i] == ids@[rk@[i] as int] by {
                if i < j {
                    assert(rk@[i] == old_rk[i] && r@[i] == old_r[i]);
                } else if i > j {
                    assert(rk@[i] == old_rk[i - 1] && r@[i] == old_r[i - 1]);
                }
            }
            lemma_insert_keeps_order(old_r, x, j as int, songs, order);
        }
        n += 1;
    }
    assert(ids@.take(ids@.len() as int) =~= ids@);
    r
}

/// Every song is in a new position (when there are at least two, none of
/// them twice, so that this is possible).
pub open spec fn every_song_moved(before: Seq<SongID>, after: Seq<SongID>) -> bool {
    before.len() >= 2 && before.no_duplicates() ==>
        forall|i: int| 0 <= i < before.len() ==> #[trigger] after[i] != before[i]
}

/// `x` is one of the first `a` songs of `v`.
spec fn among_first(v: Seq<SongID>, a: int, x: SongID) -> bool {
    exists|k: int| 0 <= k < a && #[trigger] v[k] == x
}

/// One step of the shuffle: the songs at `a` and `b` change places.
fn swap_songs(r: &mut Vec<SongID>, a: usize, b: usize)
    requires
        a < b < old(r)@.len(),
    ensures
        final(r)@ == old(r)@.update(a as int, old(r)@[b as int]).update(b as int, old(r)@[a as int]),
        final(r)@.to_multiset() == old(r)@.to_multiset(),
{
    let x = r[a];
    let y = r[b];
    let ghost r0 = r@;
    r.set(a, y);
    let ghost r1 = r@;
    r.set(b, x);
    proof {
        vstd::seq_lib::to_multiset_update(r0, a as int, y);
        vstd::seq_lib::to_multiset_update(r1, b as int, x);
        assert(r1[b as int] == y);
        assert(r@.to_multiset() =~= r0.to_multiset());
    }
}

/// Shuffles songs ("sorting hat": each position is swapped with a random
/// later one). Every song ends up somewhere else.
fn shuffle_song_ids(v: Vec<SongID>) -> (r: Vec<SongID>)
    ensures
        r@.to_multiset() == v@.to_multiset(),
        r@.len() == v@.len(),
        every_song_moved(v@, r@),
{
    let ghost v0 = v@;
    let mut r = v;
    let n = r.len();
    if n > 1 {
        let mut a: usize = 0;
        while a < n - 1
            invariant
                n == r@.len(),
                n == v0.len(),
                n > 1,
                a <= n - 1,
                r@.to_multiset() == v0.to_multiset(),
                v0.no_duplicates() ==> forall|i: int| 0 <= i < a ==> #[trigger] r@[i] != v0[i],
                forall|i: int| a <= i < n ==> #[trigger] r@[i] == v0[i] || among_first(v0, a as int, r@[i]),
                a == n - 1 ==> among_first(v0, a as int, r@[a as int]),
            decreases n - 1 - a,
        {
            let b = random_index(a + 1, n);
            let ghost r0 = r@;
            swap_songs(&mut r, a, b);
            proof {
                let a1 = (a + 1) as int;
                assert(r@[a as int] == r0[b as int]);
                assert(r@[b as int] == r0[a as int]);
                // what moved to `b` came from the first a + 1 positions
                assert(among_first(v0, a1, r@[b as int])) by {
                    if r0[a as int] == v0[a as int] {
                        assert(v0[a as int] == r@[b as int]);
                    } else {
                        assert(among_first(v0, a as int, r0[a as int]));
                        let k = choose|k: int| 0 <= k < a && #[trigger] v0[k] == r0[a as int];
                        assert(v0[k] == r@[b as int]);
                    }
                }
                assert forall|i: int| a1 <= i < n implies #[trigger] r@[i] == v0[i] || among_first(v0, a1, r@[i]) by {
                    if i != b {
                        assert(r@[i] == r0[i]);
                        if r0[i] != v0[i] {
                            assert(among_first(v0, a as int, r0[i]));
                            let k = choose|k: int| 0 <= k < a && #[trigger] v0[k] == r0[i];
                            assert(v0[k] == r@[i]);
                        }
                    }
                }
                if v0.no_duplicates() {
                    assert forall|i: int| 0 <= i < a1 implies #[trigger] r@[i] != v0[i] by {
                        if i == a {
                            if r0[b as int] != v0[b as int] {
                                assert(among_first(v0, a as int, r0[b as int]));
                                let k = choose|k: int| 0 <= k < a && #[trigger] v0[k] == r0[b as int];
                                assert(v0[k] != v0[a as int]);
                            } else {
                                assert(v0[b as int] != v0[a as int]);
                            }
                        } else {
                            assert(r@[i] == r0[i]);
                        }
                    }
                }
            }
            a += 1;
        }
        proof {
            if v0.no_duplicates() {
                assert forall|i: int| 0 <= i < n implies #[trigger] r@[i] != v0[i] by {
                    if i == n - 1 {
                        let k = choose|k: int| 0 <= k < n - 1 && #[trigger] v0[k] == r@[i];
                        assert(v0[k] != v0[i]);
                    }
                }
            }
        }
    }
    r
}

/// True when the two lists hold the same songs in the same order.
fn same_song_ids(a: &Vec<SongID>, b: &Vec<SongID>) -> (r: bool)
    ensures
        r == (a@ == b@),
{
    if a.len() != b.len() {
        return false;
    }
    let mut i: usize = 0;
    while i < a.len()
        invariant
            i <= a.len(),
            a@.len() == b@.len(),
            forall|j: int| 0 <= j < i ==> a@[j] == b@[j],
        decreases a.len() - i,
    {
        if a[i] != b[i] {
            return false;
        }
        i += 1;
    }
    assert(a@ =~= b@);
    true
}

fn copy_song_ids(v: &Vec<SongID>) -> (r: Vec<SongID>)
    ensures
        r@ == v@,
{
    let mut r: Vec<SongID> = Vec::new();
    let mut i: usize = 0;
    while i < v.len()
        invariant
            i <= v.len(),
            r@ == v@.take(i as int),
        decreases v.len() - i,
    {
        r.push(v[i]);
        i += 1;
        assert(r@ =~= v@.take(i as int));
    }
    assert(v@.take(v.len() as int) =~= v@);
    r
}

/// True when the two lists hold the same columns (tags and widths) in the
/// same order.
fn same_columns(a: &Vec<Column>, b: &Vec<Column>) -> (r: bool)
    ensures
        r == (columns_view(a@) == columns_view(b@)),
{
    if a.len() != b.len() {
        return false;
    }
    let mut i: usize = 0;
    while i < a.len()
        invariant
            i <= a.len(),
            a@.len() == b@.len(),
            forall|j: int| 0 <= j < i ==> #[trigger] columns_view(a@)[j] == columns_view(b@)[j],
        decreases a.len() - i,
    {
        let same_tag = str_eq(a[i].tag.as_str(), b[i].tag.as_str());
        if !same_tag || a[i].width != b[i].width {
            assert(columns_view(a@)[i as int] != columns_view(b@)[i as int]);
            return false;
        }
        assert(columns_view(a@)[i as int] == columns_view(b@)[i as int]);
        i += 1;
    }
    assert(columns_view(a@) =~= columns_view(b@));
    true
}

/// The songs of a playlist: its contents, in the order they were gathered,
/// and the same songs sorted or shuffled.
struct SongOrder {
    contents: Vec<SongID>,
    arranged: Vec<SongID>,
}

impl SongOrder {
    #[verifier::type_invariant]
    spec fn inv(&self) -> bool {
        self.arranged@.to_multiset() == self.contents@.to_multiset()
    }

    spec fn contents(&self) -> Seq<SongID> {
        self.contents@
    }

    spec fn arranged(&self) -> Seq<SongID> {
        self.arranged@
    }

    fn empty() -> (r: SongOrder)
        ensures
            r.contents() == Seq::<SongID>::empty(),
            r.arranged() == Seq::<SongID>::empty(),
    {
        SongOrder { contents: Vec::new(), arranged: Vec::new() }
    }

    fn new(contents: Vec<SongID>, arranged: Vec<SongID>) -> (r: SongOrder)
        requires
            arranged@.to_multiset() == contents@.to_multiset(),
        ensures
            r.contents() == contents@,
            r.arranged() == arranged@,
    {
        SongOrder { contents, arranged }
    }

    fn check(&self)
        ensures
            self.arranged().to_multiset() == self.contents().to_multiset(),
    {
        proof { use_type_invariant(self); }
    }
}

/// A playlist is two things:
/// - an optional rule (a Lua expression) that automatically determines some
///   of its songs;
/// - a list of songs that are unconditionally in it.
pub struct Playlist {
    id: PlaylistID,
    parent_id: Option<PlaylistID>,
    parent_order: u64,
    name: String,
    rule_code: String,
    manually_added_ids: Vec<SongID>,
    columns: Vec<Column>,
    sort_order: Vec<(String, bool)>,
    shuffled: bool,
    playmode: Playmode,
    library_generation: GenerationValue,
    self_generation: GenerationTracker,
    songs: SongOrder,
    children: Vec<PlaylistID>,
}

/// What a playlist holds, as mathematical values.
pub struct PlaylistView {
    pub id: PlaylistID,
    /// The parent playlist, if any.
    pub parent_id: Option<PlaylistID>,
    /// The position within the parent (or among the top-level playlists).
    pub parent_order: u64,
    pub name: Seq<char>,
    /// The rule; empty when no songs are added automatically.
    pub rule_code: Seq<char>,
    /// The songs added by hand.
    pub manual: Seq<SongID>,
    /// The columns shown: tag and width.
    pub columns: Seq<(Seq<char>, u32)>,
    /// The tags to sort by, most significant first; `true` means descending.
    pub sort_order: Seq<(Seq<char>, bool)>,
    pub shuffled: bool,
    pub playmode: Playmode,
    /// The library generation for which the contents were last gathered.
    pub library_generation: nat,
    /// A generation that changes at least whenever the songs shown change.
    pub generation: nat,
    /// The songs, in the order they were gathered.
    pub contents: Seq<SongID>,
    /// The songs, sorted or shuffled.
    pub songs: Seq<SongID>,
    /// The child playlists, in order.
    pub children: Seq<PlaylistID>,
}

impl View for Playlist {
    type V = PlaylistView;

    closed spec fn view(&self) -> PlaylistView {
        PlaylistView {
            id: self.id,
            parent_id: self.parent_id,
            parent_order: self.parent_order,
            name: self.name@,
            rule_code: self.rule_code@,
            manual: self.manually_added_ids@,
            columns: columns_view(self.columns@),
            sort_order: sort_order_view(self.sort_order@),
            shuffled: self.shuffled,
            playmode: self.playmode,
            library_generation: self.library_generation.value(),
            generation: self.self_generation.count(),
            contents: self.songs.contents(),
            songs: self.songs.arranged(),
            children: self.children@,
        }
    }
}

/// The sort order after the user clicks the heading of column `tag`: a tag
/// not in the order is put in front, ascending; one already in it is moved
/// to the front; the front tag of a sorted (not shuffled) playlist changes
/// direction.
pub open spec fn touched_order(order: Seq<(Seq<char>, bool)>, tag: Seq<char>, shuffled: bool) -> Seq<(Seq<char>, bool)> {
    if exists|i: int| #[trigger] is_first_tag(order, tag, i) {
        let i = choose|i: int| #[trigger] is_first_tag(order, tag, i);
        if i == 0 {
            if shuffled { order } else { order.update(0, (order[0].0, !order[0].1)) }
        } else {
            seq![order[i]] + order.remove(i)
        }
    } else {
        seq![(tag, false)] + order
    }
}

/// `i` is the first position of `tag` in the order.
pub open spec fn is_first_tag(order: Seq<(Seq<char>, bool)>, tag: Seq<char>, i: int) -> bool {
    &&& 0 <= i < order.len()
    &&& order[i].0 == tag
    &&& forall|j: int| 0 <= j < i ==> #[trigger] order[j].0 != tag
}

/// When the front sort key has tag `tag`, `tag` is first at position 0.
proof fn lemma_first_tag_at_front(order: Seq<(Seq<char>, bool)>, tag: Seq<char>)
    requires
        order.len() > 0,
        order[0].0 == tag,
    ensures
        exists|i: int| #[trigger] is_first_tag(order, tag, i),
        (choose|i: int| #[trigger] is_first_tag(order, tag, i)) == 0,
{
    assert(is_first_tag(order, tag, 0));
    let k = choose|i: int| #[trigger] is_first_tag(order, tag, i);
    if k > 0 {
        assert(order[0].0 != tag);
    }
}

/// After the heading of column `tag` is clicked, `tag` is the most
/// significant sort key.
pub proof fn law_touched_tag_first(order: Seq<(Seq<char>, bool)>, tag: Seq<char>, shuffled: bool)
    ensures
        touched_order(order, tag, shuffled).len() > 0,
        touched_order(order, tag, shuffled)[0].0 == tag,
{
    if exists|i: int| #[trigger] is_first_tag(order, tag, i) {
        let i = choose|i: int| #[trigger] is_first_tag(order, tag, i);
        if i == 0 {
        } else {
            assert((seq![order[i]] + order.remove(i))[0] == order[i]);
        }
    }
}

/// Clicking twice the heading of the most significant sort key of a sorted
/// playlist flips its direction and back: the order is as it was.
pub proof fn law_touched_twice_restores(order: Seq<(Seq<char>, bool)>, tag: Seq<char>)
    requires
        order.len() > 0,
        order[0].0 == tag,
    ensures
        touched_order(touched_order(order, tag, false), tag, false) == order,
{
    lemma_first_tag_at_front(order, tag);
    let once = touched_order(order, tag, false);
    assert(once == order.update(0, (order[0].0, !order[0].1)));
    lemma_first_tag_at_front(once, tag);
    assert(touched_order(once, tag, false) =~= order);
}

/// The columns after the first one with tag `tag` (if any) gets width
/// `width`.
pub open spec fn resized_columns(columns: Seq<(Seq<char>, u32)>, tag: Seq<char>, width: u32) -> Seq<(Seq<char>, u32)> {
    if exists|i: int| #[trigger] is_first_column(columns, tag, i) {
        let i = choose|i: int| #[trigger] is_first_column(columns, tag, i);
        columns.update(i, (tag, width))
    } else {
        columns
    }
}

/// `i` is the first position of a column with tag `tag`.
pub open spec fn is_first_column(columns: Seq<(Seq<char>, u32)>, tag: Seq<char>, i: int) -> bool {
    &&& 0 <= i < columns.len()
    &&& columns[i].0 == tag
    &&& forall|j: int| 0 <= j < i ==> #[trigger] columns[j].0 != tag
}

impl Playlist {
    /// A playlist as loaded from the database: not yet refreshed, with no
    /// songs and no children.
    pub(crate) fn from_db(id: PlaylistID, parent_id: Option<PlaylistID>, parent_order: u64, name: String,
        rule_code: String, shuffled: bool, playmode: Playmode, manually_added_ids: Vec<SongID>,
        columns: Vec<Column>, sort_order: Vec<(String, bool)>) -> (p: Playlist)
        ensures
            p@ == (PlaylistView {
                id,
                parent_id,
                parent_order,
                name: name@,
                rule_code: rule_code@,
                manual: manually_added_ids@,
                columns: columns_view(columns@),
                sort_order: sort_order_view(sort_order@),
                shuffled,
                playmode,
                library_generation: 0,
                generation: 0,
                contents: Seq::empty(),
                songs: Seq::empty(),
                children: Seq::empty(),
            }),
    {
        Playlist {
            id,
            parent_id,
            parent_order,
            name,
            rule_code,
            manually_added_ids,
            columns,
            sort_order,
            shuffled,
            playmode,
            library_generation: GenerationValue::not_generated(),
            self_generation: GenerationTracker::new(),
            songs: SongOrder::empty(),
            children: Vec::new(),
        }
    }

    pub(crate) fn set_parent_id(&mut self, parent_id: Option<PlaylistID>)
        ensures
            final(self)@ == (PlaylistView { parent_id, ..old(self)@ }),
    {
        self.parent_id = parent_id;
    }

    pub(crate) fn set_parent_order(&mut self, parent_order: u64)
        ensures
            final(self)@ == (PlaylistView { parent_order, ..old(self)@ }),
    {
        self.parent_order = parent_order;
    }

    pub(crate) fn set_children(&mut self, children: Vec<PlaylistID>)
        ensures
            final(self)@ == (PlaylistView { children: children@, ..old(self)@ }),
    {
        self.children = children;
    }

    pub(crate) fn take_children(&mut self) -> (c: Vec<PlaylistID>)
        ensures
            c@ == old(self)@.children,
            final(self)@ == (PlaylistView { children: Seq::empty(), ..old(self)@ }),
    {
        let mut c: Vec<PlaylistID> = Vec::new();
        std::mem::swap(&mut c, &mut self.children);
        c
    }

    pub(crate) fn push_child(&mut self, child: PlaylistID)
        ensures
            final(self)@ == (PlaylistView { children: old(self)@.children.push(child), ..old(self)@ }),
    {
        self.children.push(child);
    }

    /// The unique ID of this playlist.
    pub fn get_id(&self) -> (r: PlaylistID)
        ensures
            r == self@.id,
    {
        self.id
    }

    /// The name of this playlist.
    pub fn get_name(&self) -> (r: &str)
        ensures
            r@ == self@.name,
    {
        self.name.as_str()
    }

    /// Changes the name of this playlist (the caller records it in the
    /// database).
    pub fn set_name(&mut self, neu: String)
        ensures
            final(self)@ == (PlaylistView { name: neu@, ..old(self)@ }),
    {
        self.name = neu;
    }

    /// The rule code of this playlist.
    pub fn get_rule_code(&self) -> (r: &str)
        ensures
            r@ == self@.rule_code,
    {
        self.rule_code.as_str()
    }

    /// The IDs of the songs that were added to this playlist by hand.
    pub fn get_manual_songs(&self) -> (r: &[SongID])
        ensures
            r@ == self@.manual,
    {
        self.manually_added_ids.as_slice()
    }

    /// The columns of this playlist's view.
    pub fn get_columns(&self) -> (r: &[Column])
        ensures
            columns_view(r@) == self@.columns,
    {
        self.columns.as_slice()
    }

    /// The tags this playlist is sorted by, most significant first, each with
    /// whether it sorts descending.
    pub fn get_sort_order(&self) -> (r: &[(String, bool)])
        ensures
            sort_order_view(r@) == self@.sort_order,
    {
        self.sort_order.as_slice()
    }

    /// The child playlists, in order.
    pub fn get_children(&self) -> (r: &[PlaylistID])
        ensures
            r@ == self@.children,
    {
        self.children.as_slice()
    }

    /// The ID of the parent playlist, if any.
    pub fn get_parent_id(&self) -> (r: Option<PlaylistID>)
        ensures
            r == self@.parent_id,
    {
        self.parent_id
    }

    /// The position of this playlist within its parent.
    pub fn get_parent_order(&self) -> (r: u64)
        ensures
            r == self@.parent_order,
    {
        self.parent_order
    }

    /// How playback continues at the end of this playlist.
    pub fn get_playmode(&self) -> (r: Playmode)
        ensures
            r == self@.playmode,
    {
        self.playmode
    }

    /// Sets the playmode (the caller records it in the database).
    pub fn set_playmode(&mut self, nu: Playmode)
        ensures
            final(self)@ == (PlaylistView { playmode: nu, ..old(self)@ }),
    {
        self.playmode = nu;
    }

    /// Moves to the next playmode in the cycle, and returns it.
    pub fn bump_playmode(&mut self) -> (nu: Playmode)
        ensures
            nu == old(self)@.playmode.bump_spec(),
            final(self)@ == (PlaylistView { playmode: nu, ..old(self)@ }),
    {
        let nu = self.playmode.bump();
        self.set_playmode(nu);
        nu
    }

    /// True if the playlist is shuffled, false if it is sorted.
    pub fn is_shuffled(&self) -> (r: bool)
        ensures
            r == self@.shuffled,
    {
        self.shuffled
    }

    /// The library generation for which this playlist's contents are up to
    /// date. This is not a generation of the playlist itself.
    pub fn get_library_generation(&self) -> (r: GenerationValue)
        ensures
            r.value() == self@.library_generation,
    {
        self.library_generation
    }

    /// A generation value that changes at least as often as this playlist's
    /// songs do.
    pub fn get_playlist_generation(&self) -> (r: GenerationValue)
        ensures
            r.value() == self@.generation,
    {
        self.self_generation.snapshot()
    }

    /// The songs, sorted or shuffled, as of the last refresh. They are always
    /// the playlist's contents, rearranged.
    pub fn get_songs(&self) -> (r: &[SongID])
        ensures
            r@ == self@.songs,
            r@.to_multiset() == self@.contents.to_multiset(),
    {
        self.songs.check();
        self.songs.arranged.as_slice()
    }

    /// Sets the width of the first column showing `tag`. Returns whether
    /// there was such a column (and so whether the columns must be written
    /// to the database).
    pub fn resize_column(&mut self, tag: &str, width: u32) -> (found: bool)
        ensures
            found == exists|i: int| #[trigger] is_first_column(old(self)@.columns, tag@, i),
            final(self)@ == (PlaylistView { columns: resized_columns(old(self)@.columns, tag@, width), ..old(self)@ }),
    {
        let ghost cols = old(self)@.columns;
        let mut i: usize = 0;
        while i < self.columns.len()
            invariant
                i <= self.columns@.len(),
                self@ == old(self)@,
                cols == columns_view(self.columns@),
                forall|j: int| 0 <= j < i ==> #[trigger] cols[j].0 != tag@,
            decreases self.columns.len() - i,
        {
            if str_eq(self.columns[i].tag.as_str(), tag) {
                let c = Column { tag: self.columns[i].tag.clone(), width };
                self.columns.set(i, c);
                proof {
                    assert(is_first_column(cols, tag@, i as int));
                    let k = choose|k: int| #[trigger] is_first_column(cols, tag@, k);
                    if k < i {
                        assert(cols[k].0 != tag@);
                    } else if k > i {
                        assert(cols[i as int].0 != tag@);
                    }
                    assert(columns_view(self.columns@) =~= cols.update(i as int, (tag@, width)));
                }
                return true;
            }
            i += 1;
        }
        proof {
            assert forall|k: int| !#[trigger] is_first_column(cols, tag@, k) by {
                if 0 <= k < cols.len() {
                    assert(cols[k].0 != tag@);
                }
            }
        }
        false
    }

    /// The given songs, sorted by this playlist's sort order or shuffled.
    fn arrange(&self, lib: &SongLibrary, contents: &Vec<SongID>) -> (r: Vec<SongID>)
        ensures
            r@.to_multiset() == contents@.to_multiset(),
            !self@.shuffled ==> in_song_order(r@, lib.songs(), self@.sort_order),
            self@.shuffled ==> every_song_moved(contents@, r@),
    {
        if self.shuffled {
            shuffle_song_ids(copy_song_ids(contents))
        } else {
            let mut keys: Vec<SortKey> = Vec::new();
            let ghost order = sort_order_view(self.sort_order@);
            let mut i: usize = 0;
            while i < contents.len()
                invariant
                    i <= contents@.len(),
                    order == sort_order_view(self.sort_order@),
                    keys@.len() == i,
                    forall|p: int| 0 <= p < i ==> #[trigger] key_values(keys@[p]) == sort_values(lib.songs(), order, contents@[p]),
                    forall|p: int| 0 <= p < i ==> #[trigger] keys@[p].id == contents@[p].value(),
                    forall|p: int| 0 <= p < i ==> #[trigger] keys@[p].values@.len() == order.len(),
                decreases contents.len() - i,
            {
                let k = sort_key(lib, &self.sort_order, contents[i]);
                keys.push(k);
                i += 1;
            }
            let desc = directions_of(&self.sort_order);
            sort_song_ids(contents, &keys, &desc, Ghost(lib.songs()), Ghost(order))
        }
    }

    /// Makes `contents` the playlist's contents and arranges them anew.
    /// Returns whether the arranged songs changed, in which case the playlist
    /// generation is bumped.
    fn rearrange(&mut self, lib: &SongLibrary, contents: Vec<SongID>) -> (changed: bool)
        ensures
            final(self)@.contents == contents@,
            changed == (final(self)@.songs != old(self)@.songs),
            final(self)@.songs.to_multiset() == contents@.to_multiset(),
            !old(self)@.shuffled ==> in_song_order(final(self)@.songs, lib.songs(), old(self)@.sort_order),
            old(self)@.shuffled ==> every_song_moved(contents@, final(self)@.songs),
            final(self)@.generation == if changed { next_generation(old(self)@.generation) } else { old(self)@.generation },
            final(self)@ == (PlaylistView {
                contents: contents@,
                songs: final(self)@.songs,
                generation: final(self)@.generation,
                ..old(self)@
            }),
    {
        let newly = self.arrange(lib, &contents);
        let changed = !same_song_ids(&newly, &self.songs.arranged);
        if changed {
            self.songs = SongOrder::new(contents, newly);
            self.self_generation.bump();
        } else {
            self.songs = SongOrder::new(contents, newly);
        }
        changed
    }

    /// The arranged songs are the contents, in some order.
    pub fn check_songs(&self)
        ensures
            self@.songs.to_multiset() == self@.contents.to_multiset(),
    {
        self.songs.check();
    }

    /// Sorts (or shuffles, moving every song) this playlist. Returns true if
    /// the order of its songs changed, in which case the playlist generation
    /// is bumped.
    pub fn resort(&mut self, lib: &SongLibrary) -> (changed: bool)
        ensures
            changed == (final(self)@.songs != old(self)@.songs),
            final(self)@.songs.to_multiset() == old(self)@.contents.to_multiset(),
            !old(self)@.shuffled ==> in_song_order(final(self)@.songs, lib.songs(), old(self)@.sort_order),
            old(self)@.shuffled ==> every_song_moved(old(self)@.contents, final(self)@.songs),
            final(self)@.generation == if changed { next_generation(old(self)@.generation) } else { old(self)@.generation },
            final(self)@ == (PlaylistView { songs: final(self)@.songs, generation: final(self)@.generation, ..old(self)@ }),
    {
        let contents = copy_song_ids(&self.songs.contents);
        self.rearrange(lib, contents)
    }

    /// Gathers this playlist's songs anew with rule `rule_code` (its own rule
    /// if `None`) and the hand-added songs, and records the library
    /// generation they are current for. Songs are arranged anew only if the
    /// gathered songs differ from the current contents. On a Lua error the
    /// error is returned and nothing changes.
    fn refresh_with_code(&mut self, lib: &SongLibrary, rule_code: Option<&str>) -> (r: Result<(), String>)
        ensures
            r is Err ==> final(self)@ == old(self)@,
            r is Ok ==> final(self)@.library_generation == lib.gen(),
            r is Ok ==> rule_selection(lib.songs(), old(self)@.manual, (match rule_code { Some(c) => c@, None => old(self)@.rule_code }).len() > 0, final(self)@.contents),
            (match rule_code { Some(c) => c@, None => old(self)@.rule_code }).len() == 0
                ==> r is Ok && final(self)@.contents == found_manual(lib.songs(), old(self)@.manual),
            ({
                let code = match rule_code { Some(c) => c@, None => old(self)@.rule_code };
                code.len() > 0 && !rule_compiles(code) ==> r is Err
            }),
            r is Ok ==> final(self)@.songs.to_multiset() == final(self)@.contents.to_multiset(),
            r is Ok && final(self)@.contents != old(self)@.contents && !old(self)@.shuffled
                ==> in_song_order(final(self)@.songs, lib.songs(), old(self)@.sort_order),
            r is Ok && final(self)@.contents != old(self)@.contents && old(self)@.shuffled
                ==> every_song_moved(final(self)@.contents, final(self)@.songs),
            r is Ok ==> final(self)@.generation == if final(self)@.songs != old(self)@.songs {
                next_generation(old(self)@.generation) } else { old(self)@.generation },
            r is Ok ==> final(self)@ == (PlaylistView {
                library_generation: final(self)@.library_generation,
                contents: final(self)@.contents,
                songs: final(self)@.songs,
                generation: final(self)@.generation,
                ..old(self)@
            }),
    {
        let lua = lua_new();
        let gathered = {
            let code: &str = match rule_code {
                None => self.rule_code.as_str(),
                Some(c) => c,
            };
            let compiled = match compile_song_rule(&lua, code) {
                Ok(f) => f,
                Err(e) => return Err(e),
            };
            gather_songs(&lua, &compiled, &self.manually_added_ids, lib)
        };
        let new_songs = match gathered {
            Ok(v) => v,
            Err(e) => return Err(e),
        };
        self.songs.check();
        if !same_song_ids(&self.songs.contents, &new_songs) {
            self.rearrange(lib, new_songs);
        }
        self.library_generation = get_generation(lib);
        Ok(())
    }

    /// Updates this playlist with the latest songs of the library, even if
    /// none changed. Returns the Lua error if the rule fails.
    pub fn refresh(&mut self, lib: &SongLibrary) -> (r: Result<(), String>)
        ensures
            r is Err ==> final(self)@ == old(self)@,
            r is Ok ==> final(self)@.library_generation == lib.gen(),
            r is Ok ==> rule_selection(lib.songs(), old(self)@.manual, old(self)@.rule_code.len() > 0, final(self)@.contents),
            old(self)@.rule_code.len() == 0 ==> r is Ok && final(self)@.contents == found_manual(lib.songs(), old(self)@.manual),
            old(self)@.rule_code.len() > 0 && !rule_compiles(old(self)@.rule_code) ==> r is Err,
            r is Ok ==> final(self)@.songs.to_multiset() == final(self)@.contents.to_multiset(),
            r is Ok && final(self)@.contents != old(self)@.contents && !old(self)@.shuffled
                ==> in_song_order(final(self)@.songs, lib.songs(), old(self)@.sort_order),
            r is Ok && final(self)@.contents != old(self)@.contents && old(self)@.shuffled
                ==> every_song_moved(final(self)@.contents, final(self)@.songs),
            r is Ok ==> final(self)@ == (PlaylistView {
                library_generation: final(self)@.library_generation,
                contents: final(self)@.contents,
                songs: final(self)@.songs,
                generation: final(self)@.generation,
                ..old(self)@
            }),
    {
        self.refresh_with_code(lib, None)
    }

    /// Refreshes this playlist if it is not current for the library's
    /// generation. Returns the Lua error if a refresh failed (the playlist
    /// is then left as it was).
    pub fn maybe_refreshed(&mut self, lib: &SongLibrary) -> (r: Result<(), String>)
        ensures
            old(self)@.library_generation == lib.gen() ==> r is Ok && final(self)@ == old(self)@,
            r is Err ==> final(self)@ == old(self)@,
            r is Ok ==> final(self)@.library_generation == lib.gen(),
            old(self)@.library_generation != lib.gen() && r is Ok ==> rule_selection(lib.songs(), old(self)@.manual, old(self)@.rule_code.len() > 0, final(self)@.contents),
            old(self)@.library_generation != lib.gen() && old(self)@.rule_code.len() > 0
                && !rule_compiles(old(self)@.rule_code) ==> r is Err,
            r is Ok ==> final(self)@ == (PlaylistView {
                library_generation: final(self)@.library_generation,
                contents: final(self)@.contents,
                songs: final(self)@.songs,
                generation: final(self)@.generation,
                ..old(self)@
            }),
    {
        let current = get_generation(lib);
        proof { GenerationValue::lemma_eq_iff_value(self.library_generation, current); }
        if self.library_generation == current {
            return Ok(());
        }
        self.refresh(lib)
    }

    /// Checks that a rule compiles: `Ok(())` if it is empty or compiles, the
    /// Lua error otherwise.
    pub fn syntax_check_rule_code(rule_code: &str) -> (r: Result<(), String>)
        ensures
            rule_code@.len() == 0 ==> r is Ok,
            rule_code@.len() > 0 && !rule_compiles(rule_code@) ==> r is Err,
    {
        let lua = lua_new();
        let checked = match compile_song_rule(&lua, rule_code) {
            Ok(_) => Ok(()),
            Err(e) => Err(e),
        };
        checked
    }

    /// Replaces the rule, if the new one works: the playlist is refreshed
    /// with it first, and on a Lua error the error is returned and nothing
    /// changes. (The caller records the rule in the database.)
    pub fn set_rule_code(&mut self, lib: &SongLibrary, neu: String) -> (r: Result<(), String>)
        ensures
            r is Err ==> final(self)@ == old(self)@,
            r is Ok ==> final(self)@.rule_code == neu@,
            r is Ok ==> final(self)@.library_generation == lib.gen(),
            r is Ok ==> rule_selection(lib.songs(), old(self)@.manual, neu@.len() > 0, final(self)@.contents),
            neu@.len() == 0 ==> r is Ok && final(self)@.contents == found_manual(lib.songs(), old(self)@.manual),
            neu@.len() > 0 && !rule_compiles(neu@) ==> r is Err,
            r is Ok ==> final(self)@ == (PlaylistView {
                rule_code: neu@,
                library_generation: final(self)@.library_generation,
                contents: final(self)@.contents,
                songs: final(self)@.songs,
                generation: final(self)@.generation,
                ..old(self)@
            }),
    {
        match self.refresh_with_code(lib, Some(neu.as_str())) {
            Ok(()) => {},
            Err(e) => return Err(e),
        }
        self.rule_code = neu;
        Ok(())
    }

    /// Replaces the rule and the columns, if the new rule works: the
    /// playlist is refreshed with it first, and on a Lua error the error is
    /// returned and nothing changes. New columns bump the playlist
    /// generation. (The caller records both in the database.)
    pub fn set_rule_code_and_columns(&mut self, lib: &SongLibrary, neu_code: String, neu_columns: Vec<Column>) -> (r: Result<(), String>)
        ensures
            r is Err ==> final(self)@ == old(self)@,
            r is Ok ==> final(self)@.rule_code == neu_code@,
            r is Ok ==> final(self)@.columns == columns_view(neu_columns@),
            r is Ok ==> final(self)@.library_generation == lib.gen(),
            r is Ok ==> rule_selection(lib.songs(), old(self)@.manual, neu_code@.len() > 0, final(self)@.contents),
            neu_code@.len() == 0 ==> r is Ok && final(self)@.contents == found_manual(lib.songs(), old(self)@.manual),
            neu_code@.len() > 0 && !rule_compiles(neu_code@) ==> r is Err,
            r is Ok ==> final(self)@ == (PlaylistView {
                rule_code: neu_code@,
                columns: columns_view(neu_columns@),
                library_generation: final(self)@.library_generation,
                contents: final(self)@.contents,
                songs: final(self)@.songs,
                generation: final(self)@.generation,
                ..old(self)@
            }),
    {
        match self.refresh_with_code(lib, Some(neu_code.as_str())) {
            Ok(()) => {},
            Err(e) => return Err(e),
        }
        if !same_columns(&self.columns, &neu_columns) {
            self.self_generation.bump();
        }
        self.rule_code = neu_code;
        self.columns = neu_columns;
        Ok(())
    }

    /// Replaces the hand-added songs. When they differ from the current ones,
    /// the playlist is refreshed, and `Some` of the refresh's outcome is
    /// returned (a Lua error leaves the old songs, but the new hand-added
    /// list stays); the caller then records the list in the database. When
    /// they are the same, nothing changes and `None` is returned.
    pub fn set_manual_songs(&mut self, lib: &SongLibrary, songs: Vec<SongID>) -> (r: Option<Result<(), String>>)
        ensures
            old(self)@.manual == songs@ <==> r is None,
            r is None ==> final(self)@ == old(self)@,
            final(self)@.manual == songs@,
            r matches Some(Err(_)) ==> final(self)@ == (PlaylistView { manual: songs@, ..old(self)@ }),
            r matches Some(Ok(())) ==> final(self)@.library_generation == lib.gen(),
            r matches Some(Ok(())) ==> rule_selection(lib.songs(), songs@, old(self)@.rule_code.len() > 0, final(self)@.contents),
            r is Some && old(self)@.rule_code.len() > 0 && !rule_compiles(old(self)@.rule_code) ==> r matches Some(Err(_)),
            r matches Some(Ok(())) ==> final(self)@ == (PlaylistView {
                manual: songs@,
                library_generation: final(self)@.library_generation,
                contents: final(self)@.contents,
                songs: final(self)@.songs,
                generation: final(self)@.generation,
                ..old(self)@
            }),
    {
        if same_song_ids(&self.manually_added_ids, &songs) {
            return None;
        }
        self.manually_added_ids = songs;
        Some(self.refresh(lib))
    }

    /// The user clicked on a column heading:
    /// - shuffle is disabled, if enabled;
    /// - a tag not in the sort order is put in front of it, ascending;
    /// - a tag already in the order but not in front is moved to the front;
    /// - the front tag, if shuffle was already disabled, changes between
    ///   ascending and descending.
    /// Then the playlist is sorted again. The caller records the new sort
    /// order in the database, with shuffle disabled.
    pub fn touched_heading(&mut self, tag: &str, lib: &SongLibrary)
        ensures
            final(self)@.sort_order == touched_order(old(self)@.sort_order, tag@, old(self)@.shuffled),
            !final(self)@.shuffled,
            final(self)@.songs.to_multiset() == old(self)@.contents.to_multiset(),
            in_song_order(final(self)@.songs, lib.songs(), final(self)@.sort_order),
            final(self)@ == (PlaylistView {
                sort_order: final(self)@.sort_order,
                shuffled: false,
                songs: final(self)@.songs,
                generation: final(self)@.generation,
                ..old(self)@
            }),
    {
        let ghost order = old(self)@.sort_order;
        let mut pos: usize = 0;
        let mut found = false;
        while pos < self.sort_order.len()
            invariant_except_break
                pos <= self.sort_order@.len(),
                self@ == old(self)@,
                order == sort_order_view(self.sort_order@),
                forall|j: int| 0 <= j < pos ==> #[trigger] order[j].0 != tag@,
                !found,
            ensures
                pos <= self.sort_order@.len(),
                self@ == old(self)@,
                order == sort_order_view(self.sort_order@),
                forall|j: int| 0 <= j < pos ==> #[trigger] order[j].0 != tag@,
                found ==> pos < self.sort_order@.len() && order[pos as int].0 == tag@,
                !found ==> pos == self.sort_order@.len(),
            decreases self.sort_order.len() - pos,
        {
            if str_eq(self.sort_order[pos].0.as_str(), tag) {
                found = true;
                break;
            }
            pos += 1;
        }
        proof {
            if found {
                assert(is_first_tag(order, tag@, pos as int));
                let k = choose|k: int| #[trigger] is_first_tag(order, tag@, k);
                if k < pos {
                    assert(order[k].0 != tag@);
                } else if k > pos {
                    assert(order[pos as int].0 != tag@);
                }
            } else {
                assert forall|k: int| !#[trigger] is_first_tag(order, tag@, k) by {
                    if 0 <= k < order.len() {
                        assert(order[k].0 != tag@);
                    }
                }
            }
        }
        if !found {
            self.sort_order.insert(0, (owned(tag), false));
            assert(sort_order_view(self.sort_order@) =~= seq![(tag@, false)] + order);
        } else if pos == 0 {
            if !self.shuffled {
                let (t, d) = self.sort_order.remove(0);
                self.sort_order.insert(0, (t, !d));
                assert(sort_order_view(self.sort_order@) =~= order.update(0, (order[0].0, !order[0].1)));
            }
        } else {
            let auf = self.sort_order.remove(pos);
            self.sort_order.insert(0, auf);
            assert(sort_order_view(self.sort_order@) =~= seq![order[pos as int]] + order.remove(pos as int));
        }
        self.shuffled = false;
        self.resort(lib);
    }

    /// The user wants to toggle shuffle mode. The playlist is sorted or
    /// shuffled anew; returns whether shuffle is now enabled (the caller
    /// records it in the database).
    pub fn toggle_shuffle(&mut self, lib: &SongLibrary) -> (r: bool)
        ensures
            r == !old(self)@.shuffled,
            final(self)@.shuffled == r,
            final(self)@.songs.to_multiset() == old(self)@.contents.to_multiset(),
            !r ==> in_song_order(final(self)@.songs, lib.songs(), old(self)@.sort_order),
            r ==> every_song_moved(old(self)@.contents, final(self)@.songs),
            final(self)@ == (PlaylistView {
                shuffled: r,
                songs: final(self)@.songs,
                generation: final(self)@.generation,
                ..old(self)@
            }),
    {
        self.shuffled = !self.shuffled;
        self.resort(lib);
        self.shuffled
    }

    /// Turns shuffle mode on or off. When that changes anything, the
    /// playlist is sorted or shuffled anew and true is returned (the caller
    /// then records it in the database); otherwise nothing changes.
    pub fn set_shuffle(&mut self, shuffled: bool, lib: &SongLibrary) -> (changed: bool)
        ensures
            changed == (old(self)@.shuffled != shuffled),
            !changed ==> final(self)@ == old(self)@,
            changed ==> final(self)@.songs.to_multiset() == old(self)@.contents.to_multiset(),
            changed && !shuffled ==> in_song_order(final(self)@.songs, lib.songs(), old(self)@.sort_order),
            changed && shuffled ==> every_song_moved(old(self)@.contents, final(self)@.songs),
            final(self)@ == (PlaylistView {
                shuffled: shuffled,
                songs: final(self)@.songs,
                generation: final(self)@.generation,
                ..old(self)@
            }),
    {
        if self.shuffled != shuffled {
            self.shuffled = shuffled;
            self.resort(lib);
            true
        } else {
            false
        }
    }
}

} // verus!
