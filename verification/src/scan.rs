//! Which directory entries the music scan looks at. (Walking the
//! directories, reading each file and hashing it is done by the caller,
//! which hands what it finds to the physical file library.)

use vstd::prelude::*;
use crate::text::{starts_with, ends_with, has_char, seq_starts_with, seq_ends_with, seq_has_char};

verus! {

/// The scan skips an entry with this name: hidden entries (starting with
/// `.`), names ending in a carriage return, iTunes and playlist files
/// (`.xml`, `.itl`, `.itdb`, `.m3u`, `.itc`) and iTunes library files
/// (starting with `iTunes Library ` and without a dot).
pub open spec fn skipped_name(x: Seq<char>) -> bool {
    seq_starts_with(x, "."@) || seq_ends_with(x, "\r"@) || seq_ends_with(x, ".xml"@)
        || seq_ends_with(x, ".itl"@) || seq_ends_with(x, ".itdb"@) || seq_ends_with(x, ".m3u"@)
        || seq_ends_with(x, ".itc"@) || (seq_starts_with(x, "iTunes Library "@) && !seq_has_char(x, '.'))
}

/// True when the scan skips an entry named `name` (see `skipped_name`).
pub fn skips_file_name(name: &str) -> (r: bool)
    ensures
        r == skipped_name(name@),
{
    starts_with(name, ".") || ends_with(name, "\r") || ends_with(name, ".xml")
        || ends_with(name, ".itl") || ends_with(name, ".itdb") || ends_with(name, ".m3u")
        || ends_with(name, ".itc") || (starts_with(name, "iTunes Library ") && !has_char(name, '.'))
}

} // verus!
