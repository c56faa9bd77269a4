//! Playlist rules: short Lua expressions, evaluated once per song with the
//! song's metadata as the environment, that decide whether the song belongs
//! in a playlist.

use vstd::prelude::*;
use crate::logical::{SongID, SongLibrary, LogicalSong, has_song_id, last_with_id, find_song_by_song_id};
use crate::text::{append_str, decimal_digits, lemma_decimal_digits_injective};
use crate::metadata::string_pairs_view;
use crate::pairs::{pairs_to_map, later_wins_map, law_later_wins_unique};

verus! {

/// Helpers every rule can use: `tag:contains "x"`, `tag:starts_with "x"`,
/// `tag:ends_with "x"`, `tag:set()` and `tag:unset()`.
pub const RULE_LIBRARY: &'static str = "function string.contains(s, x) return string.find(s, x, 1, true) ~= nil end
function string.starts_with(s, x) return string.sub(s, 1, #x) == x end
function string.ends_with(s, x) return #x == 0 or string.sub(s, -#x) == x end
function string.set(s) return s ~= \"\" and s ~= \"0\" end
function string.unset(s) return s == \"\" or s == \"0\" end
";

/// What comes before a rule's text: the chunk receives the song's metadata
/// table, makes every tag a variable (missing tags read as empty strings,
/// other names fall back to the globals) and returns the rule's value.
pub const RULE_PREFIX: &'static str = "local song = ...
local _ENV = setmetatable({}, {__index = function(_, k)
  local v = song[k]
  if v ~= nil then return v end
  v = _G[k]
  if v ~= nil then return v end
  return \"\"
end})
return ";

#[verifier::external_type_specification]
#[verifier::external_body]
pub struct ExLua(mlua::Lua);

#[verifier::external_type_specification]
#[verifier::external_body]
pub struct ExLuaFunction<'lua>(mlua::Function<'lua>);

#[verifier::external_type_specification]
#[verifier::external_body]
pub struct ExLuaTable<'lua>(mlua::Table<'lua>);

/// A fresh Lua state with the safe standard libraries.
///
/// Trusted: calls `mlua::Lua::new`, which panics only when the state cannot
/// be allocated. Nothing is stated of the state.
#[verifier::external_body]
pub(crate) fn lua_new() -> mlua::Lua {
    mlua::Lua::new()
}

/// Runs a chunk of Lua code in `lua`.
///
/// Trusted: calls `mlua::Chunk::exec` on `lua.load(code)`; an error is handed
/// back as its message. Whether it succeeds depends on the state and on what
/// the code does, so nothing is stated of the result.
#[verifier::external_body]
pub(crate) fn lua_exec(lua: &mlua::Lua, code: &str) -> Result<(), String> {
    match lua.load(code).exec() {
        Ok(()) => Ok(()),
        Err(e) => Err(format!("{}", e)),
    }
}

/// Whether Lua's parser accepts this text as a chunk.
pub uninterp spec fn lua_chunk_compiles(code: Seq<char>) -> bool;

/// Compiles a chunk of Lua code into a function, without running it.
///
/// Trusted: calls `mlua::Chunk::into_function` on `lua.load(code)`, which
/// only parses the text; an error (such as a syntax error) is handed back as
/// its message. It is stated that a chunk the parser refuses is never
/// compiled. The converse is left unsaid: loading can also fail for want of
/// memory.
#[verifier::external_body]
pub(crate) fn lua_compile<'a>(lua: &'a mlua::Lua, code: &str) -> (r: Result<mlua::Function<'a>, String>)
    ensures
        r is Ok ==> lua_chunk_compiles(code@),
{
    match lua.load(code).into_function() {
        Ok(f) => Ok(f),
        Err(e) => Err(format!("{}", e)),
    }
}

/// The entries a Lua table was made with, each key and value as text (an
/// integer key as its decimal digits).
pub uninterp spec fn lua_table_strings(t: mlua::Table) -> Map<Seq<char>, Seq<char>>;

/// The entries of a Lua sequence of the strings `v`: the string `v[i]` at
/// key `i + 1` (as text), for each position `i`.
pub open spec fn sequence_entries(v: Seq<Seq<char>>) -> Map<Seq<char>, Seq<char>>
    decreases v.len(),
{
    if v.len() == 0 {
        Map::empty()
    } else {
        sequence_entries(v.drop_last()).insert(decimal_digits(v.len()), v.last())
    }
}

/// The key of position `i` (from 0) of a Lua sequence: `i + 1`, as text.
pub open spec fn sequence_key(i: int) -> Seq<char> {
    decimal_digits((i + 1) as nat)
}

/// A sequence's entries are exactly its strings, the `i`-th (from 0) at key
/// `i + 1`.
pub proof fn law_sequence_entries(v: Seq<Seq<char>>)
    ensures
        forall|i: int| 0 <= i < v.len() ==> sequence_entries(v).contains_key(#[trigger] sequence_key(i))
            && sequence_entries(v)[sequence_key(i)] == v[i],
        forall|k: Seq<char>| #[trigger] sequence_entries(v).contains_key(k) ==>
            exists|i: int| 0 <= i < v.len() && k == #[trigger] sequence_key(i),
    decreases v.len(),
{
    if v.len() > 0 {
        let d = v.drop_last();
        law_sequence_entries(d);
        let n = v.len();
        assert(sequence_key(n - 1) == decimal_digits(n));
        assert forall|i: int| 0 <= i < v.len() implies sequence_entries(v).contains_key(#[trigger] sequence_key(i))
            && sequence_entries(v)[sequence_key(i)] == v[i] by {
            if i < n - 1 {
                if sequence_key(i) == decimal_digits(n) {
                    lemma_decimal_digits_injective((i + 1) as nat, n);
                }
                assert(d[i] == v[i]);
                assert(sequence_entries(d).contains_key(sequence_key(i)));
            }
        }
        assert forall|k: Seq<char>| #[trigger] sequence_entries(v).contains_key(k) implies
            exists|i: int| 0 <= i < v.len() && k == #[trigger] sequence_key(i) by {
            if k == decimal_digits(n) {
                assert(k == sequence_key(n - 1));
            } else {
                assert(sequence_entries(d).contains_key(k));
                let i = choose|i: int| 0 <= i < d.len() && k == #[trigger] sequence_key(i);
                assert(0 <= i < v.len() && k == sequence_key(i));
            }
        }
    }
}

/// A Lua table holding the given (tag, value) pairs.
///
/// Trusted: calls `mlua::Lua::create_table_from`, which makes a new table and
/// sets each pair in it in order (`lua_rawset`), so that a later pair
/// replaces an earlier one with the same key; it fails only when Lua runs
/// out of memory, and the error is handed back as its message. It is stated
/// that the table holds exactly the pairs' strings, a later pair winning.
#[verifier::external_body]
pub(crate) fn lua_table_from<'a>(lua: &'a mlua::Lua, pairs: &Vec<(String, String)>) -> (r: Result<mlua::Table<'a>, String>)
    ensures
        r is Ok ==> lua_table_strings(r->Ok_0) == later_wins_map(string_pairs_view(pairs@)),
{
    match lua.create_table_from(pairs.iter().map(|p| (p.0.as_str(), p.1.as_str()))) {
        Ok(t) => Ok(t),
        Err(e) => Err(format!("{}", e)),
    }
}

/// That a rule, called with a table holding exactly these tags, answered
/// `answer`. Nothing else is known of it: the answer rests on the rule and
/// on the state of its Lua interpreter.
pub uninterp spec fn lua_rule_answered(tags: Map<Seq<char>, Seq<char>>, answer: bool) -> bool;

/// Calls a Lua function with one table and reads its result as a boolean
/// (`nil` and `false` are false, anything else is true).
///
/// Trusted: calls `mlua::Function::call`; a runtime error is handed back as
/// its message. The answer depends on what the function does, so it is only
/// recorded as the answer given for the table's entries.
#[verifier::external_body]
fn lua_call_bool<'a>(f: &mlua::Function<'a>, arg: mlua::Table<'a>) -> (r: Result<bool, String>)
    ensures
        r is Ok ==> lua_rule_answered(lua_table_strings(arg), r->Ok_0),
{
    match f.call::<_, bool>(arg) {
        Ok(b) => Ok(b),
        Err(e) => Err(format!("{}", e)),
    }
}

/// The chunk compiled for a rule: the prefix, then the rule's text.
pub fn rule_chunk(rule_code: &str) -> (r: String)
    ensures
        r@ == RULE_PREFIX@ + rule_code@,
{
    let mut r = String::new();
    append_str(&mut r, RULE_PREFIX);
    append_str(&mut r, rule_code);
    r
}

/// Whether a rule's text, after the prefix, is a chunk Lua accepts.
pub open spec fn rule_compiles(rule_code: Seq<char>) -> bool {
    lua_chunk_compiles(RULE_PREFIX@ + rule_code)
}

/// Prepares a rule for evaluation in `lua`. An empty rule adds no songs and
/// needs no function (`Ok(None)`). Otherwise the helper library is run and
/// the rule's chunk compiled; a Lua error is handed back as its message, and
/// a rule whose chunk Lua does not accept always gives one.
pub fn compile_song_rule<'a>(lua: &'a mlua::Lua, rule_code: &str) -> (r: Result<Option<mlua::Function<'a>>, String>)
    ensures
        match r {
            Ok(None) => rule_code@.len() == 0,
            Ok(Some(_)) => rule_code@.len() > 0 && rule_compiles(rule_code@),
            Err(_) => rule_code@.len() > 0,
        },
{
    if rule_code.is_empty() {
        return Ok(None);
    }
    match lua_exec(lua, RULE_LIBRARY) {
        Ok(()) => {},
        Err(e) => return Err(e),
    }
    let chunk = rule_chunk(rule_code);
    match lua_compile(lua, chunk.as_str()) {
        Ok(f) => Ok(Some(f)),
        Err(e) => Err(e),
    }
}

/// Library position `j` holds the song of one of the hand-added IDs.
pub open spec fn is_manual_position(songs: Seq<LogicalSong>, manual: Seq<SongID>, j: int) -> bool {
    exists|k: int| 0 <= k < manual.len() && has_song_id(songs, manual[k]) && #[trigger] last_with_id(songs, manual[k]) == j
}

/// The hand-added IDs whose songs are in the library, in order.
pub open spec fn found_manual(songs: Seq<LogicalSong>, manual: Seq<SongID>) -> Seq<SongID>
    decreases manual.len(),
{
    if manual.len() == 0 {
        Seq::empty()
    } else {
        let rest = found_manual(songs, manual.drop_last());
        if has_song_id(songs, manual.last()) { rest.push(manual.last()) } else { rest }
    }
}

/// The IDs of the songs among the first `n` of the library that the rule
/// accepted (`verdicts`) and that were not added by hand, in library order.
pub open spec fn ruled_in(songs: Seq<LogicalSong>, manual: Seq<SongID>, verdicts: Seq<bool>, n: int) -> Seq<SongID>
    decreases n,
{
    if n <= 0 {
        Seq::empty()
    } else {
        let rest = ruled_in(songs, manual, verdicts, n - 1);
        if verdicts[n - 1] && !is_manual_position(songs, manual, n - 1) { rest.push(songs[n - 1].id) } else { rest }
    }
}

/// The songs of a playlist: the hand-added ones found in the library, then
/// the library's other songs that the rule accepted.
pub open spec fn selected_songs(songs: Seq<LogicalSong>, manual: Seq<SongID>, verdicts: Seq<bool>) -> Seq<SongID> {
    found_manual(songs, manual) + ruled_in(songs, manual, verdicts, songs.len() as int)
}

/// No verdict accepts anything: only hand-added songs are selected.
pub proof fn lemma_ruled_in_none(songs: Seq<LogicalSong>, manual: Seq<SongID>, verdicts: Seq<bool>, n: int)
    requires
        n <= verdicts.len(),
        forall|j: int| 0 <= j < verdicts.len() ==> !#[trigger] verdicts[j],
    ensures
        ruled_in(songs, manual, verdicts, n) == Seq::<SongID>::empty(),
    decreases n,
{
    if n > 0 {
        lemma_ruled_in_none(songs, manual, verdicts, n - 1);
    }
}

proof fn lemma_manual_step(songs: Seq<LogicalSong>, manual: Seq<SongID>, k: int, i: int)
    requires
        0 <= k < manual.len(),
    ensures
        is_manual_position(songs, manual.take(k + 1), i) == (is_manual_position(songs, manual.take(k), i)
            || (has_song_id(songs, manual[k]) && last_with_id(songs, manual[k]) == i)),
{
    let m0 = manual.take(k);
    let m1 = manual.take(k + 1);
    if is_manual_position(songs, m0, i) {
        let w = choose|w: int| 0 <= w < m0.len() && has_song_id(songs, m0[w]) && #[trigger] last_with_id(songs, m0[w]) == i;
        assert(m1[w] == m0[w]);
    }
    if is_manual_position(songs, m1, i) {
        let w = choose|w: int| 0 <= w < m1.len() && has_song_id(songs, m1[w]) && #[trigger] last_with_id(songs, m1[w]) == i;
        if w < k {
            assert(m0[w] == m1[w]);
        }
    }
    if has_song_id(songs, manual[k]) && last_with_id(songs, manual[k]) == i {
        assert(m1[k] == manual[k]);
    }
}

/// Which library positions hold a hand-added song.
fn manual_positions(lib: &SongLibrary, manual: &Vec<SongID>) -> (seen: Vec<bool>)
    ensures
        seen@.len() == lib.songs().len(),
        forall|j: int| 0 <= j < seen@.len() ==> #[trigger] seen@[j] == is_manual_position(lib.songs(), manual@, j),
{
    let ghost songs = lib.songs();
    let mut seen: Vec<bool> = Vec::new();
    let n = lib.len();
    let mut j: usize = 0;
    while j < n
        invariant
            j <= n,
            n == songs.len(),
            seen@.len() == j,
            forall|i: int| 0 <= i < j ==> !#[trigger] seen@[i],
        decreases n - j,
    {
        seen.push(false);
        j += 1;
    }
    let mut k: usize = 0;
    while k < manual.len()
        invariant
            k <= manual@.len(),
            songs == lib.songs(),
            seen@.len() == songs.len(),
            forall|i: int| 0 <= i < seen@.len() ==> #[trigger] seen@[i] == is_manual_position(songs, manual@.take(k as int), i),
        decreases manual.len() - k,
    {
        let found = find_song_by_song_id(lib, manual[k]);
        let ghost m1 = manual@.take(k + 1);
        match found {
            Some(i) => {
                seen.set(i, true);
            },
            None => {},
        }
        proof {
            assert forall|i: int| 0 <= i < seen@.len() implies #[trigger] seen@[i] == is_manual_position(songs, m1, i) by {
                lemma_manual_step(songs, manual@, k as int, i);
            }
        }
        k += 1;
    }
    assert(manual@.take(manual@.len() as int) =~= manual@);
    seen
}

/// The songs a playlist holds, given the rule's verdict on each library
/// song: the hand-added songs found in the library, in order, then the
/// other library songs the rule accepted, in library order. The verdicts on
/// hand-added songs are not looked at.
pub fn select_songs(lib: &SongLibrary, manual: &Vec<SongID>, verdicts: &Vec<bool>) -> (r: Vec<SongID>)
    requires
        verdicts@.len() == lib.songs().len(),
    ensures
        r@ == selected_songs(lib.songs(), manual@, verdicts@),
{
    let ghost songs = lib.songs();
    let mut r: Vec<SongID> = Vec::new();
    let mut k: usize = 0;
    while k < manual.len()
        invariant
            k <= manual@.len(),
            songs == lib.songs(),
            r@ == found_manual(songs, manual@.take(k as int)),
        decreases manual.len() - k,
    {
        let id = manual[k];
        assert(manual@.take(k + 1).drop_last() =~= manual@.take(k as int));
        assert(manual@.take(k + 1).last() == id);
        match find_song_by_song_id(lib, id) {
            Some(_) => r.push(id),
            None => {},
        }
        k += 1;
    }
    assert(manual@.take(manual@.len() as int) =~= manual@);
    let seen = manual_positions(lib, manual);
    let ghost head = r@;
    let mut j: usize = 0;
    let n = lib.len();
    while j < n
        invariant
            j <= n,
            n == songs.len(),
            songs == lib.songs(),
            verdicts@.len() == n,
            seen@.len() == n,
            forall|i: int| 0 <= i < seen@.len() ==> #[trigger] seen@[i] == is_manual_position(songs, manual@, i),
            head == found_manual(songs, manual@),
            r@ == head + ruled_in(songs, manual@, verdicts@, j as int),
        decreases n - j,
    {
        if verdicts[j] && !seen[j] {
            r.push(lib.song_at(j).get_id());
            assert(r@ =~= head + ruled_in(songs, manual@, verdicts@, j + 1));
        }
        j += 1;
    }
    r
}

/// The metadata of a library song, as (tag, value) pairs.
fn song_pairs(lib: &SongLibrary, j: usize) -> (v: Vec<(String, String)>)
    requires
        j < lib.songs().len(),
    ensures
        string_pairs_view(v@) == lib.songs()[j as int].user_metadata.entry_seq(),
        pairs_to_map(string_pairs_view(v@)) == lib.songs()[j as int].user_metadata@,
        later_wins_map(string_pairs_view(v@)) == lib.songs()[j as int].user_metadata@,
{
    let v = lib.song_at(j).get_metadata().to_pairs();
    proof { law_later_wins_unique(string_pairs_view(v@)); }
    v
}

/// Every library song not added by hand got its verdict from the rule,
/// called with a table holding exactly the song's metadata.
pub open spec fn answered_by_rule(songs: Seq<LogicalSong>, manual: Seq<SongID>, verdicts: Seq<bool>) -> bool {
    forall|j: int| 0 <= j < songs.len() && !is_manual_position(songs, manual, j)
        ==> #[trigger] lua_rule_answered(songs[j].user_metadata@, verdicts[j])
}

/// The songs gathered for a playlist: those `select_songs` gives for some
/// verdicts, which (when there is a rule) are the rule's answers on each
/// song's own metadata.
pub open spec fn rule_selection(songs: Seq<LogicalSong>, manual: Seq<SongID>, has_rule: bool, r: Seq<SongID>) -> bool {
    exists|verdicts: Seq<bool>| verdicts.len() == songs.len()
        && r == #[trigger] selected_songs(songs, manual, verdicts)
        && (has_rule ==> answered_by_rule(songs, manual, verdicts))
}

/// Every answer is a verdict (none is an error).
pub open spec fn answers_ok(a: Seq<Result<bool, String>>) -> bool {
    forall|j: int| 0 <= j < a.len() ==> #[trigger] a[j] is Ok
}

/// The verdicts of the rule, from its answers on the songs in turn: the
/// verdicts if every answer is one, else the first error.
pub fn verdicts_from_answers(answers: &Vec<Result<bool, String>>) -> (r: Result<Vec<bool>, String>)
    ensures
        r is Ok <==> answers_ok(answers@),
        r is Ok ==> r->Ok_0@.len() == answers@.len()
            && forall|j: int| 0 <= j < answers@.len() ==> #[trigger] r->Ok_0@[j] == answers@[j]->Ok_0,
        r is Err ==> exists|j: int| 0 <= j < answers@.len() && #[trigger] answers@[j] is Err
            && answers@[j]->Err_0@ == r->Err_0@
            && forall|i: int| 0 <= i < j ==> answers@[i] is Ok,
{
    let mut v: Vec<bool> = Vec::new();
    let mut j: usize = 0;
    while j < answers.len()
        invariant
            j <= answers@.len(),
            v@.len() == j,
            forall|i: int| 0 <= i < j ==> #[trigger] answers@[i] is Ok && v@[i] == answers@[i]->Ok_0,
        decreases answers.len() - j,
    {
        match &answers[j] {
            Ok(b) => v.push(*b),
            Err(e) => {
                let e2 = e.clone();
                assert(answers@[j as int] is Err);
                return Err(e2);
            },
        }
        j += 1;
    }
    Ok(v)
}

/// Gathers a playlist's songs: the hand-added ones found in the library,
/// then, if there is a rule, each other library song for which the rule
/// (called with the song's metadata) is true. The first Lua error stops the
/// gathering and is handed back. Without a rule this always succeeds with
/// the hand-added songs; with one, the songs are those `select_songs` gives
/// for the rule's answers, each given on a table holding exactly that song's
/// metadata.
pub fn gather_songs<'a>(lua: &'a mlua::Lua, rule: &Option<mlua::Function<'a>>, manual: &Vec<SongID>, lib: &SongLibrary) -> (r: Result<Vec<SongID>, String>)
    ensures
        rule is None ==> r is Ok && r->Ok_0@ == found_manual(lib.songs(), manual@),
        r is Ok ==> rule_selection(lib.songs(), manual@, rule is Some, r->Ok_0@),
{
    let seen = manual_positions(lib, manual);
    let n = lib.len();
    let mut answers: Vec<Result<bool, String>> = Vec::new();
    let mut stopped = false;
    let mut j: usize = 0;
    while j < n && !stopped
        invariant
            j <= n,
            n == lib.songs().len(),
            seen@.len() == n,
            answers@.len() == j,
            forall|i: int| 0 <= i < seen@.len() ==> #[trigger] seen@[i] == is_manual_position(lib.songs(), manual@, i),
            !stopped ==> answers_ok(answers@),
            stopped ==> j > 0 && answers@[j - 1] is Err,
            forall|i: int| 0 <= i < j && (rule is None || is_manual_position(lib.songs(), manual@, i))
                ==> #[trigger] answers@[i] == Ok::<bool, String>(false),
            rule is Some ==> forall|i: int| 0 <= i < j && !is_manual_position(lib.songs(), manual@, i)
                && answers@[i] is Ok ==> lua_rule_answered(lib.songs()[i].user_metadata@, #[trigger] answers@[i]->Ok_0),
        decreases n - j,
    {
        let a: Result<bool, String> = if seen[j] {
            Ok(false)
        } else {
            match rule {
                None => Ok(false),
                Some(f) => {
                    let pairs = song_pairs(lib, j);
                    match lua_table_from(lua, &pairs) {
                        Ok(table) => lua_call_bool(f, table),
                        Err(e) => Err(e),
                    }
                },
            }
        };
        stopped = a.is_err();
        answers.push(a);
        j += 1;
    }
    let verdicts = match verdicts_from_answers(&answers) {
        Ok(v) => v,
        Err(e) => return Err(e),
    };
    assert(!stopped);
    assert(j == n);
    let r = select_songs(lib, manual, &verdicts);
    proof {
        if rule is Some {
            assert forall|i: int| 0 <= i < lib.songs().len() && !is_manual_position(lib.songs(), manual@, i)
                implies #[trigger] lua_rule_answered(lib.songs()[i].user_metadata@, verdicts@[i]) by {
                assert(answers@[i] is Ok);
            }
            assert(answered_by_rule(lib.songs(), manual@, verdicts@));
        }
        if rule is None {
            assert forall|i: int| 0 <= i < verdicts@.len() implies !#[trigger] verdicts@[i] by {
                assert(answers@[i] == Ok::<bool, String>(false));
            }
            lemma_ruled_in_none(lib.songs(), manual@, verdicts@, n as int);
            assert(r@ =~= found_manual(lib.songs(), manual@));
        }
    }
    Ok(r)
}

} // verus!
