//! Importing a song's metadata from one of its files with a Lua script: the
//! user's `import.lua` if it compiles, else the built-in example script. The
//! script sees the file's own metadata as `inmeta` and changes the song's
//! metadata in `outmeta`.

use vstd::prelude::*;
use crate::metadata::{Metadata, string_pairs_view};
use crate::pairs::{Pairs, later_wins_map, law_later_wins_unique};
use crate::physical::{PhysicalFile, SeenPath};
use crate::logical::{SongID, simple_import_metadata, simple_imported};
use crate::rules::{lua_new, lua_exec, lua_compile, lua_table_from, lua_chunk_compiles, lua_table_strings, sequence_entries,
    sequence_key, law_sequence_entries};
use crate::errors::strings_view;
use crate::text::{decimal, decimal_digits};

verus! {

/// Helpers the import script can use: the same string tests rules have.
pub const IMPORT_LIBRARY: &'static str = "function string.contains(s, x) return string.find(s, x, 1, true) ~= nil end
function string.starts_with(s, x) return string.sub(s, 1, #x) == x end
function string.ends_with(s, x) return #x == 0 or string.sub(s, -#x) == x end
";

/// The built-in import script, also written out as `import.lua.example`
/// for users to start from.
pub const EXAMPLE_IMPORT_SCRIPT: &'static str = "-- Tsong metadata import script.
--
-- Copy this file to \"import.lua\" in the same directory and edit it to change
-- how a song's metadata is taken from its music files. It runs once for each
-- file, with these variables set:
--   inmeta     the file's own metadata (tag -> value)
--   outmeta    the song's metadata so far; change it in place
--   filename   the file's name; path: its full path
--   filenames  the names of every path the file was seen at; paths: the paths
--   file_id    the file's ID (the SHA-256 of its contents, in hexadecimal)
--   song_id    the song's ID, or nil for a song new to the library
for k, v in pairs(inmeta) do
  local key = string.lower(k)
  if key == \"track\" then key = \"track#\" end
  if key == \"disc\" then key = \"disc#\" end
  if outmeta[key] == nil then outmeta[key] = v end
end
if song_id == nil then
  outmeta.unchecked = \"1\"
end
";

/// That a global variable of a Lua state, named `name`, was set to a table
/// holding exactly these entries. Nothing else is known of it (which state,
/// and what the variable holds later, is not recorded).
pub uninterp spec fn lua_global_holds_table(name: Seq<char>, entries: Map<Seq<char>, Seq<char>>) -> bool;

/// Sets a global variable of `lua` to a table.
///
/// Trusted: calls `raw_set` on `mlua::Lua::globals`; an error (running out
/// of memory) is handed back as its message. On success it is recorded
/// that the variable was set to a table with the given table's entries.
#[verifier::external_body]
fn lua_set_global_table<'a>(lua: &'a mlua::Lua, name: &str, value: mlua::Table<'a>) -> (r: Result<(), String>)
    ensures
        r is Ok ==> lua_global_holds_table(name@, lua_table_strings(value)),
{
    match lua.globals().raw_set(name, value) {
        Ok(()) => Ok(()),
        Err(e) => Err(format!("{}", e)),
    }
}

/// Sets a global variable of `lua` to a string.
///
/// Trusted: calls `raw_set` on `mlua::Lua::globals`; an error (running out
/// of memory) is handed back as its message. Nothing is stated of it.
#[verifier::external_body]
fn lua_set_global_str(lua: &mlua::Lua, name: &str, value: &str) -> Result<(), String> {
    match lua.globals().raw_set(name, value) {
        Ok(()) => Ok(()),
        Err(e) => Err(format!("{}", e)),
    }
}

/// Sets a global variable of `lua` to an integer, or to `nil`.
///
/// Trusted: calls `raw_set` on `mlua::Lua::globals`; an error (running out
/// of memory) is handed back as its message. Nothing is stated of it.
#[verifier::external_body]
fn lua_set_global_int(lua: &mlua::Lua, name: &str, value: Option<i64>) -> Result<(), String> {
    match lua.globals().raw_set(name, value) {
        Ok(()) => Ok(()),
        Err(e) => Err(format!("{}", e)),
    }
}

/// A Lua table holding the strings at keys 1, 2, ...
///
/// Trusted: calls `mlua::Lua::create_sequence_from`, which makes a new
/// table and sets the `i`-th item (from 0) at integer key `i + 1`
/// (`lua_rawseti`); an error (running out of memory) is handed back as its
/// message. It is stated that the table holds exactly those entries.
#[verifier::external_body]
fn lua_sequence_from<'a>(lua: &'a mlua::Lua, items: &Vec<String>) -> (r: Result<mlua::Table<'a>, String>)
    ensures
        r is Ok ==> lua_table_strings(r->Ok_0) == sequence_entries(strings_view(items@)),
{
    match lua.create_sequence_from(items.iter().map(|s| s.as_str())) {
        Ok(t) => Ok(t),
        Err(e) => Err(format!("{}", e)),
    }
}

/// Calls a Lua function without arguments, ignoring what it returns.
///
/// Trusted: calls `mlua::Function::call`; a runtime error is handed back as
/// its message. What the function does is not stated.
#[verifier::external_body]
fn lua_call_unit<'a>(f: &mlua::Function<'a>) -> Result<(), String> {
    match f.call::<_, ()>(()) {
        Ok(()) => Ok(()),
        Err(e) => Err(format!("{}", e)),
    }
}

/// The (key, value) pairs of the table in a global variable of `lua`, each
/// read as strings (numbers are turned into strings).
///
/// Trusted: calls `raw_get` on `mlua::Lua::globals` and walks the table with
/// `mlua::Table::pairs`; an error (the variable is not a table, or a key or
/// value is neither a string nor a number) is handed back as its message.
/// The pairs, and their order, depend on the script and are not stated.
#[verifier::external_body]
fn lua_global_string_pairs(lua: &mlua::Lua, name: &str) -> Result<Vec<(String, String)>, String> {
    let table: mlua::Table = match lua.globals().raw_get(name) {
        Ok(t) => t,
        Err(e) => return Err(format!("{}", e)),
    };
    let mut v: Vec<(String, String)> = Vec::new();
    for pair in table.pairs::<String, String>() {
        match pair {
            Ok(p) => v.push(p),
            Err(e) => return Err(format!("{}", e)),
        }
    }
    Ok(v)
}

/// The full paths a file was seen at, in order.
pub open spec fn seen_paths(paths: Seq<SeenPath>) -> Seq<Seq<char>> {
    paths.map_values(|p: SeenPath| p.path@)
}

/// The file names of the paths a file was seen at, in order.
pub open spec fn seen_names(paths: Seq<SeenPath>) -> Seq<Seq<char>> {
    paths.map_values(|p: SeenPath| p.file_name@)
}

/// What the import script finds in `paths` and `filenames` (see the
/// contract of `import_metadata`): at key `i + 1`, the full path and the
/// file name of the `i`-th place the file was seen, and nothing else.
pub proof fn law_import_path_lists(paths: Seq<SeenPath>)
    ensures
        forall|i: int| 0 <= i < paths.len() ==>
            sequence_entries(seen_paths(paths)).contains_key(#[trigger] sequence_key(i))
            && sequence_entries(seen_paths(paths))[sequence_key(i)] == paths[i].path@
            && sequence_entries(seen_names(paths)).contains_key(sequence_key(i))
            && sequence_entries(seen_names(paths))[sequence_key(i)] == paths[i].file_name@,
        forall|k: Seq<char>| #[trigger] sequence_entries(seen_paths(paths)).contains_key(k) ==>
            exists|i: int| 0 <= i < paths.len() && k == #[trigger] sequence_key(i),
        forall|k: Seq<char>| #[trigger] sequence_entries(seen_names(paths)).contains_key(k) ==>
            exists|i: int| 0 <= i < paths.len() && k == #[trigger] sequence_key(i),
{
    law_sequence_entries(seen_paths(paths));
    law_sequence_entries(seen_names(paths));
    assert forall|i: int| 0 <= i < paths.len() implies
        sequence_entries(seen_paths(paths)).contains_key(#[trigger] sequence_key(i))
        && sequence_entries(seen_paths(paths))[sequence_key(i)] == paths[i].path@
        && sequence_entries(seen_names(paths)).contains_key(sequence_key(i))
        && sequence_entries(seen_names(paths))[sequence_key(i)] == paths[i].file_name@ by {
        assert(seen_paths(paths)[i] == paths[i].path@);
        assert(seen_names(paths)[i] == paths[i].file_name@);
    }
}

/// The paths and the names of the paths a file was seen at.
fn seen_lists(paths: &Vec<SeenPath>) -> (r: (Vec<String>, Vec<String>))
    ensures
        r.0@.len() == paths@.len(),
        r.1@.len() == paths@.len(),
        forall|i: int| 0 <= i < paths@.len() ==> #[trigger] r.0@[i]@ == paths@[i].path@,
        forall|i: int| 0 <= i < paths@.len() ==> #[trigger] r.1@[i]@ == paths@[i].file_name@,
{
    let mut full: Vec<String> = Vec::new();
    let mut names: Vec<String> = Vec::new();
    let mut i: usize = 0;
    while i < paths.len()
        invariant
            i <= paths@.len(),
            full@.len() == i,
            names@.len() == i,
            forall|j: int| 0 <= j < i ==> #[trigger] full@[j]@ == paths@[j].path@,
            forall|j: int| 0 <= j < i ==> #[trigger] names@[j]@ == paths@[j].file_name@,
        decreases paths.len() - i,
    {
        full.push(paths[i].path.clone());
        names.push(paths[i].file_name.clone());
        i += 1;
    }
    (full, names)
}

/// The outcome of an import: the new metadata, or the Lua error; and the
/// error that made the user's script be passed over, if it was.
pub struct Imported {
    pub result: Result<Metadata, String>,
    pub script_error: Option<String>,
}

/// Imports a song's metadata from one of its files. The user's script (if
/// given) is compiled; if that fails, its error is reported in
/// `script_error` and the built-in script is used. The script runs with
/// `inmeta` (the file's metadata), `outmeta` (`song_metadata`), the file's
/// first name and path, all its names and paths, its ID in hexadecimal and
/// the song's ID (`nil` for 0, a song not yet in the library). The new
/// metadata is what the script left in `outmeta` (see `imported_metadata`),
/// with `duration` set to the file's duration. A Lua error is handed back,
/// and the metadata is then left to the caller as it was.
pub fn import_metadata(song_id: SongID, song_metadata: &Metadata, file: &PhysicalFile, user_script: Option<&str>) -> (r: Imported)
    requires
        file.absolute_paths@.len() > 0,
        song_id.value() <= i64::MAX,
    ensures
        r.result is Ok ==> exists|left: Pairs<Seq<char>>| r.result->Ok_0@ == #[trigger] imported_view(left, file.duration),
        r.result is Ok ==> lua_global_holds_table("inmeta"@, file.raw_meta@)
            && lua_global_holds_table("outmeta"@, song_metadata@),
        r.result is Ok ==> lua_global_holds_table("paths"@, sequence_entries(seen_paths(file.absolute_paths@)))
            && lua_global_holds_table("filenames"@, sequence_entries(seen_names(file.absolute_paths@))),
        user_script is None ==> r.script_error is None,
        user_script matches Some(code) && !lua_chunk_compiles(code@) ==> r.script_error is Some || r.result is Err,
{
    let lua = lua_new();
    let outcome = {
        let mut script_error: Option<String> = None;
        let prepared = match lua_exec(&lua, IMPORT_LIBRARY) {
            Err(e) => Err(e),
            Ok(()) => {
                let user = match user_script {
                    Some(code) => match lua_compile(&lua, code) {
                        Ok(f) => Some(f),
                        Err(e) => {
                            script_error = Some(e);
                            None
                        },
                    },
                    None => None,
                };
                match user {
                    Some(f) => Ok(f),
                    None => lua_compile(&lua, EXAMPLE_IMPORT_SCRIPT),
                }
            },
        };
        let result = match prepared {
            Err(e) => Err(e),
            Ok(script) => run_import(&lua, &script, song_id, song_metadata, file),
        };
        Imported { result, script_error }
    };
    outcome
}

/// The metadata an import gives when the script left the pairs `left` in
/// `outmeta`: those pairs (a later one replacing an earlier one with the
/// same key), with `duration` set to the file's duration in decimal.
pub open spec fn imported_view(left: Pairs<Seq<char>>, duration: u32) -> Map<Seq<char>, Seq<char>> {
    later_wins_map(left).insert("duration"@, decimal_digits(duration as nat))
}

/// The new metadata of an import, from the pairs the script left in
/// `outmeta` and the file's duration.
pub fn imported_metadata(left: Vec<(String, String)>, duration: u32) -> (m: Metadata)
    ensures
        m@ == imported_view(string_pairs_view(left@), duration),
{
    let mut m = Metadata::from_pairs(left);
    m.insert("duration".to_owned(), decimal(duration as u64));
    m
}

fn run_import<'a>(lua: &'a mlua::Lua, script: &mlua::Function<'a>, song_id: SongID, song_metadata: &Metadata,
    file: &PhysicalFile) -> (r: Result<Metadata, String>)
    requires
        file.absolute_paths@.len() > 0,
        song_id.value() <= i64::MAX,
    ensures
        r is Ok ==> exists|left: Pairs<Seq<char>>| r->Ok_0@ == #[trigger] imported_view(left, file.duration),
        r is Ok ==> lua_global_holds_table("inmeta"@, file.raw_meta@)
            && lua_global_holds_table("outmeta"@, song_metadata@),
        r is Ok ==> lua_global_holds_table("paths"@, sequence_entries(seen_paths(file.absolute_paths@)))
            && lua_global_holds_table("filenames"@, sequence_entries(seen_names(file.absolute_paths@))),
{
    let raw_pairs = file.get_raw_metadata().to_pairs();
    proof { law_later_wins_unique(string_pairs_view(raw_pairs@)); }
    let inmeta = match lua_table_from(lua, &raw_pairs) {
        Ok(t) => t,
        Err(e) => return Err(e),
    };
    match lua_set_global_table(lua, "inmeta", inmeta) {
        Ok(()) => {},
        Err(e) => return Err(e),
    }
    let song_pairs = song_metadata.to_pairs();
    proof { law_later_wins_unique(string_pairs_view(song_pairs@)); }
    let outmeta = match lua_table_from(lua, &song_pairs) {
        Ok(t) => t,
        Err(e) => return Err(e),
    };
    match lua_set_global_table(lua, "outmeta", outmeta) {
        Ok(()) => {},
        Err(e) => return Err(e),
    }
    let first = &file.absolute_paths[0];
    match lua_set_global_str(lua, "filename", first.file_name.as_str()) {
        Ok(()) => {},
        Err(e) => return Err(e),
    }
    match lua_set_global_str(lua, "path", first.path.as_str()) {
        Ok(()) => {},
        Err(e) => return Err(e),
    }
    let (full, names) = seen_lists(&file.absolute_paths);
    assert(strings_view(full@) =~= seen_paths(file.absolute_paths@));
    assert(strings_view(names@) =~= seen_names(file.absolute_paths@));
    let filenames = match lua_sequence_from(lua, &names) {
        Ok(t) => t,
        Err(e) => return Err(e),
    };
    match lua_set_global_table(lua, "filenames", filenames) {
        Ok(()) => {},
        Err(e) => return Err(e),
    }
    let paths = match lua_sequence_from(lua, &full) {
        Ok(t) => t,
        Err(e) => return Err(e),
    };
    match lua_set_global_table(lua, "paths", paths) {
        Ok(()) => {},
        Err(e) => return Err(e),
    }
    match lua_set_global_str(lua, "file_id", file.id.to_hex().as_str()) {
        Ok(()) => {},
        Err(e) => return Err(e),
    }
    let raw_id = song_id.as_inner();
    let lua_id: Option<i64> = if raw_id == 0 { None } else { Some(raw_id as i64) };
    match lua_set_global_int(lua, "song_id", lua_id) {
        Ok(()) => {},
        Err(e) => return Err(e),
    }
    match lua_call_unit(script) {
        Ok(()) => {},
        Err(e) => return Err(e),
    }
    let pairs = match lua_global_string_pairs(lua, "outmeta") {
        Ok(p) => p,
        Err(e) => return Err(e),
    };
    let ghost left = string_pairs_view(pairs@);
    let imported = imported_metadata(pairs, file.duration);
    assert(imported@ == imported_view(left, file.duration));
    Ok(imported)
}

/// The metadata of a song made for a newly found file: what the import gave,
/// or, if the import failed, the simple import of the file's own metadata.
pub fn new_song_metadata(imported: Result<Metadata, String>, raw: &Metadata) -> (r: Metadata)
    ensures
        match imported {
            Ok(m) => r@ == m@,
            Err(_) => simple_imported(raw@, r@),
        },
{
    match imported {
        Ok(m) => m,
        Err(_) => simple_import_metadata(raw),
    }
}

/// Decides whether the example import script must be written out: given
/// the current `import.lua.example` (`None` if it could not be read),
/// returns the text to write, or `None` if the file already holds it.
pub fn maybe_write_example_import_script(existing: Option<&str>) -> (r: Option<&'static str>)
    ensures
        match existing {
            Some(e) => (e@ == EXAMPLE_IMPORT_SCRIPT@) <==> r is None,
            None => r is Some,
        },
        r is Some ==> r->0@ == EXAMPLE_IMPORT_SCRIPT@,
{
    match existing {
        Some(e) => {
            let same = {
                let a = e.to_owned();
                let b = EXAMPLE_IMPORT_SCRIPT.to_owned();
                a == b
            };
            if same { None } else { Some(EXAMPLE_IMPORT_SCRIPT) }
        },
        None => Some(EXAMPLE_IMPORT_SCRIPT),
    }
}

} // verus!
