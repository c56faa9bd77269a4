//! Physical files: the files on disk that hold songs. Each is identified by
//! the SHA-256 hash of its contents, and remembered under every relative path
//! it was ever seen at.

use vstd::prelude::*;
use crate::metadata::Metadata;
use crate::buckets::{Buckets, bucket_of};
use crate::text::{copy_strings, contains_string, push_char};
use crate::errors::strings_view;

verus! {

/// The number of bytes in a file ID (a SHA-256 hash).
pub const ID_SIZE: usize = 32;

/// The SHA-256 hash of a byte string, as computed by `lsx`.
pub uninterp spec fn sha256_of(data: Seq<u8>) -> Seq<u8>;

/// Hashes `data` with `lsx::sha256::hash`.
///
/// Trusted: the result is the SHA-256 digest of the input (named, not
/// stated). `lsx` panics on inputs of 2^61 bytes or more, which the
/// precondition excludes.
#[verifier::external_body]
fn sha256_hash(data: &[u8]) -> (r: [u8; 32])
    requires
        data@.len() < 0x2000_0000_0000_0000,
    ensures
        r@ == sha256_of(data@),
{
    lsx::sha256::hash(data)
}

/// A physical file's unique identifier: the SHA-256 hash of its contents.
#[derive(Clone, Copy, Eq, PartialOrd, Ord, Hash, Debug)]
pub struct FileID {
    inner: [u8; 32],
}

impl PartialEq for FileID {
    fn eq(&self, other: &FileID) -> (r: bool) {
        let mut i: usize = 0;
        while i < 32
            invariant
                i <= 32,
                forall|j: int| 0 <= j < i ==> self.inner@[j] == other.inner@[j],
            decreases 32 - i,
        {
            if self.inner[i] != other.inner[i] {
                return false;
            }
            i += 1;
        }
        assert(self.inner@ =~= other.inner@);
        true
    }
}

impl vstd::std_specs::cmp::PartialEqSpecImpl for FileID {
    open spec fn obeys_eq_spec() -> bool {
        true
    }

    open spec fn eq_spec(&self, other: &FileID) -> bool {
        self@ == other@
    }
}

/// A file ID of the wrong length was found.
#[derive(Clone, Copy, PartialEq, Eq, Debug)]
pub struct WrongIdLength {
    pub len: usize,
}

impl View for FileID {
    type V = Seq<u8>;

    closed spec fn view(&self) -> Seq<u8> {
        self.inner@
    }
}

impl FileID {
    /// File IDs with the same bytes are the same.
    pub proof fn lemma_view_injective(a: FileID, b: FileID)
        ensures
            (a@ == b@) <==> (a == b),
    {
        if a@ == b@ {
            assert(a.inner@ =~= b.inner@);
            assert(a.inner == b.inner);
        }
    }

    /// Every file ID has exactly `ID_SIZE` bytes.
    pub proof fn lemma_len(a: FileID)
        ensures
            a@.len() == ID_SIZE,
    {
    }

    /// Makes a file ID from exactly `ID_SIZE` bytes.
    pub fn from_bytes(bytes: &[u8]) -> (r: Result<FileID, WrongIdLength>)
        ensures
            match r {
                Ok(id) => bytes@.len() == ID_SIZE && id@ == bytes@,
                Err(e) => bytes@.len() != ID_SIZE && e.len == bytes@.len(),
            },
    {
        if bytes.len() != ID_SIZE {
            return Err(WrongIdLength { len: bytes.len() });
        }
        let mut a = [0u8; 32];
        let mut i: usize = 0;
        while i < ID_SIZE
            invariant
                i <= ID_SIZE,
                bytes@.len() == ID_SIZE,
                forall|j: int| 0 <= j < i ==> a@[j] == bytes@[j],
            decreases ID_SIZE - i,
        {
            a[i] = bytes[i];
            i += 1;
        }
        let id = FileID { inner: a };
        assert(id@ =~= bytes@);
        Ok(id)
    }

    /// Makes a file ID from a hash.
    pub fn from_hash(bytes: &[u8; 32]) -> (r: FileID)
        ensures
            r@ == bytes@,
    {
        FileID { inner: *bytes }
    }

    /// The file ID of a file with the given contents: its SHA-256 hash.
    pub fn from_file(contents: &[u8]) -> (r: FileID)
        requires
            contents@.len() < 0x2000_0000_0000_0000,
        ensures
            r@ == sha256_of(contents@),
    {
        FileID { inner: sha256_hash(contents) }
    }

    /// The bytes of this file ID.
    pub fn as_bytes(&self) -> (r: &[u8; 32])
        ensures
            r@ == self@,
    {
        &self.inner
    }
}

/// The lower-case hexadecimal digit for `d`.
pub open spec fn hex_digit(d: u8) -> char {
    if d < 10 { ((d as u32) + 48) as char } else { ((d as u32) + 87) as char }
}

/// Each byte as two lower-case hexadecimal digits.
pub open spec fn hex_text(bytes: Seq<u8>) -> Seq<char>
    decreases bytes.len(),
{
    if bytes.len() == 0 {
        Seq::empty()
    } else {
        hex_text(bytes.drop_last()) + seq![hex_digit(bytes.last() / 16), hex_digit(bytes.last() % 16)]
    }
}

fn hex_char(d: u8) -> (c: char)
    requires
        d < 16,
    ensures
        c == hex_digit(d),
{
    if d < 10 { ((d + 48) as char) } else { ((d + 87) as char) }
}

impl FileID {
    /// The ID as 64 lower-case hexadecimal digits (how it is shown).
    pub fn to_hex(&self) -> (r: String)
        ensures
            r@ == hex_text(self@),
    {
        let mut r = String::new();
        let mut i: usize = 0;
        while i < 32
            invariant
                i <= 32,
                self@.len() == 32,
                r@ == hex_text(self@.take(i as int)),
            decreases 32 - i,
        {
            let b = self.inner[i];
            push_char(&mut r, hex_char(b / 16));
            push_char(&mut r, hex_char(b % 16));
            i += 1;
            assert(self@.take(i as int).drop_last() =~= self@.take(i - 1));
            assert(r@ =~= hex_text(self@.take(i as int)));
        }
        assert(self@.take(32) =~= self@);
        r
    }
}

/// An absolute path at which a file was seen during this run, together with
/// the last component of that path.
pub struct SeenPath {
    pub path: String,
    pub file_name: String,
}

impl Clone for SeenPath {
    fn clone(&self) -> (r: SeenPath)
        ensures
            r == *self,
    {
        SeenPath { path: self.path.clone(), file_name: self.file_name.clone() }
    }
}

/// A file on the disk. It holds (from our perspective) exactly one logical
/// song. Different encodings of the same logical song are different physical
/// files.
pub struct PhysicalFile {
    /// The file's SHA-256 hash.
    pub id: FileID,
    /// The file's size, used to help recognize it during a scan.
    pub size: u64,
    /// The file's approximate duration, in seconds.
    pub duration: u32,
    /// All relative paths under which this file was ever seen.
    pub relative_paths: Vec<String>,
    /// Raw metadata, exactly as the decoder reported it.
    pub raw_meta: Metadata,
    /// All absolute paths under which this file was seen since startup.
    pub absolute_paths: Vec<SeenPath>,
}

impl PhysicalFile {
    /// The absolute paths at which this file was seen since startup.
    pub fn get_absolute_paths(&self) -> (r: &Vec<SeenPath>)
        ensures
            r@ == self.absolute_paths@,
    {
        &self.absolute_paths
    }

    /// The raw metadata of this file.
    pub fn get_raw_metadata(&self) -> (r: &Metadata)
        ensures
            r@ == self.raw_meta@,
    {
        &self.raw_meta
    }

    /// The duration of this file, in seconds.
    pub fn get_duration(&self) -> (r: u32)
        ensures
            r == self.duration,
    {
        self.duration
    }

    /// The ID of this file.
    pub fn get_id(&self) -> (r: FileID)
        ensures
            r == self.id,
    {
        self.id
    }
}

/// A scanned file disagrees with the record of the file with the same ID.
#[derive(Clone, Copy, PartialEq, Eq, Debug)]
pub enum ScanMismatch {
    /// Same physical file, different size.
    Size { scanned_size: u64, recorded_size: u64 },
    /// Same physical file, different duration.
    Duration { scanned_duration: u32, recorded_duration: u32 },
    /// Same physical file, different physical metadata.
    Metadata,
}

/// What a successful deep scan did to the file database.
#[derive(Clone, Copy, PartialEq, Eq, Debug)]
pub enum ScannedFile {
    /// A new record was made, at this position; it must be added to the
    /// backing store.
    Added { index: usize },
    /// The file was already known, at this position. If
    /// `relative_paths_changed`, its relative paths must be updated in the
    /// backing store.
    Known { index: usize, relative_paths_changed: bool },
}

/// The database of physical files, indexed by relative path.
pub struct FileLibrary {
    files: Vec<PhysicalFile>,
    by_relative_path: Buckets,
}

/// No two records share an ID.
pub open spec fn ids_unique(files: Seq<PhysicalFile>) -> bool {
    forall|i: int, j: int| 0 <= i < files.len() && 0 <= j < files.len() && i != j ==> #[trigger] files[i].id != #[trigger] files[j].id
}

/// Every position filed in the index names a record.
pub open spec fn index_in_range(m: Map<Seq<char>, Seq<usize>>, n: nat) -> bool {
    forall|k: Seq<char>, j: int| #[trigger] m.contains_key(k) && 0 <= j < m[k].len() ==> #[trigger] m[k][j] < n
}

/// No position is filed twice under one key.
pub open spec fn buckets_distinct(m: Map<Seq<char>, Seq<usize>>) -> bool {
    forall|k: Seq<char>| #[trigger] m.contains_key(k) ==> m[k].no_duplicates()
}

/// Filing `v` under `key` unless it is there already keeps every bucket
/// free of repeats.
proof fn lemma_push_unique_distinct(before: Map<Seq<char>, Seq<usize>>, after: Map<Seq<char>, Seq<usize>>,
    key: Seq<char>, v: usize)
    requires
        buckets_distinct(before),
        bucket_of(before, key).contains(v) ==> after == before,
        !bucket_of(before, key).contains(v) ==> after == before.insert(key, bucket_of(before, key).push(v)),
    ensures
        buckets_distinct(after),
        bucket_of(after, key).contains(v),
{
    if !bucket_of(before, key).contains(v) {
        let b = bucket_of(before, key);
        assert(after[key] == b.push(v));
        assert(after[key][b.len() as int] == v);
        assert forall|k: Seq<char>| #[trigger] after.contains_key(k) implies after[k].no_duplicates() by {
            if k == key {
                assert forall|i: int, j: int| 0 <= i < after[k].len() && 0 <= j < after[k].len() && i != j
                    implies after[k][i] != after[k][j] by {
                    if i < b.len() && j < b.len() {
                        assert(before.contains_key(key));
                    } else if i < b.len() {
                        assert(after[k][i] == b[i]);
                    } else {
                        assert(after[k][j] == b[j]);
                    }
                }
            } else {
                assert(before.contains_key(k));
            }
        }
    }
}

/// Whether some record has this ID.
pub open spec fn has_id(files: Seq<PhysicalFile>, id: FileID) -> bool {
    exists|i: int| 0 <= i < files.len() && #[trigger] files[i].id == id
}

/// The records are the same except for the absolute paths of record `k`,
/// which gained `p`.
pub open spec fn gained_path(old_files: Seq<PhysicalFile>, new_files: Seq<PhysicalFile>, k: int, p: SeenPath) -> bool {
    &&& new_files.len() == old_files.len()
    &&& 0 <= k < old_files.len()
    &&& forall|j: int| 0 <= j < old_files.len() && j != k ==> #[trigger] new_files[j] == old_files[j]
    &&& new_files[k].id == old_files[k].id
    &&& new_files[k].size == old_files[k].size
    &&& new_files[k].duration == old_files[k].duration
    &&& new_files[k].relative_paths@ == old_files[k].relative_paths@
    &&& new_files[k].raw_meta@ == old_files[k].raw_meta@
    &&& new_files[k].absolute_paths@ == old_files[k].absolute_paths@.push(p)
}

/// The first position in `b` whose record has the given size.
pub open spec fn first_with_size(files: Seq<PhysicalFile>, b: Seq<usize>, size: u64) -> int {
    choose|j: int| 0 <= j < b.len() && files[b[j] as int].size == size
        && forall|i: int| 0 <= i < j ==> files[#[trigger] b[i] as int].size != size
}

impl FileLibrary {
    #[verifier::type_invariant]
    spec fn inv(&self) -> bool {
        &&& ids_unique(self.files@)
        &&& index_in_range(self.by_relative_path@, self.files@.len())
        &&& buckets_distinct(self.by_relative_path@)
    }

    /// The records, in the order they were added.
    pub closed spec fn files(&self) -> Seq<PhysicalFile> {
        self.files@
    }

    /// The relative-path index.
    pub closed spec fn relative_index(&self) -> Map<Seq<char>, Seq<usize>> {
        self.by_relative_path@
    }

    /// An empty database.
    pub fn new() -> (lib: FileLibrary)
        ensures
            lib.files() == Seq::<PhysicalFile>::empty(),
            lib.relative_index() == Map::<Seq<char>, Seq<usize>>::empty(),
    {
        FileLibrary { files: Vec::new(), by_relative_path: Buckets::new() }
    }

    /// No two records share an ID, every indexed position names a record,
    /// and no position is filed twice under one relative path.
    pub fn check_invariant(&self)
        ensures
            ids_unique(self.files()),
            index_in_range(self.relative_index(), self.files().len()),
            buckets_distinct(self.relative_index()),
    {
        proof { use_type_invariant(self); }
    }

    /// The number of records.
    pub fn len(&self) -> (n: usize)
        ensures
            n == self.files().len(),
    {
        self.files.len()
    }

    /// The record at position `i`.
    pub fn file_at(&self, i: usize) -> (f: &PhysicalFile)
        requires
            i < self.files().len(),
        ensures
            *f == self.files()[i as int],
    {
        &self.files[i]
    }

    fn position_of(&self, id: &FileID) -> (r: Option<usize>)
        ensures
            match r {
                Some(i) => i < self.files@.len() && self.files@[i as int].id == *id,
                None => !has_id(self.files@, *id),
            },
    {
        let mut i: usize = 0;
        while i < self.files.len()
            invariant
                i <= self.files.len(),
                forall|j: int| 0 <= j < i ==> self.files@[j].id != *id,
            decreases self.files.len() - i,
        {
            if self.files[i].id == *id {
                proof { FileID::lemma_view_injective(self.files@[i as int].id, *id); }
                return Some(i);
            }
            proof { FileID::lemma_view_injective(self.files@[i as int].id, *id); }
            i += 1;
        }
        None
    }
}

/// Looks up a record by its ID.
pub fn get_file_by_id<'a>(lib: &'a FileLibrary, id: &FileID) -> (r: Option<&'a PhysicalFile>)
    ensures
        match r {
            Some(f) => has_id(lib.files(), *id) && f.id == *id
                && exists|i: int| 0 <= i < lib.files().len() && lib.files()[i] == *f,
            None => !has_id(lib.files(), *id),
        },
{
    match lib.position_of(id) {
        Some(i) => {
            proof {
                assert(lib.files()[i as int] == lib.files@[i as int]);
            }
            Some(&lib.files[i])
        },
        None => None,
    }
}

/// Adds a record loaded from the backing store. A record whose ID is already
/// known is ignored (and `false` is returned). Each of its relative paths is
/// indexed.
pub fn add_file_from_db(lib: &mut FileLibrary, id: FileID, size: u64, duration: u32,
                        relative_paths: Vec<String>, raw_meta: Metadata) -> (added: bool)
    ensures
        added == !has_id(old(lib).files(), id),
        !added ==> final(lib).files() == old(lib).files() && final(lib).relative_index() == old(lib).relative_index(),
        added ==> {
            let k = old(lib).files().len();
            &&& final(lib).files().len() == k + 1
            &&& final(lib).files().take(k as int) == old(lib).files()
            &&& final(lib).files()[k as int].id == id
            &&& final(lib).files()[k as int].size == size
            &&& final(lib).files()[k as int].duration == duration
            &&& final(lib).files()[k as int].relative_paths@ == relative_paths@
            &&& final(lib).files()[k as int].raw_meta@ == raw_meta@
            &&& final(lib).files()[k as int].absolute_paths@.len() == 0
            &&& forall|p: int| 0 <= p < relative_paths@.len() ==>
                #[trigger] bucket_of(final(lib).relative_index(), relative_paths@[p]@).contains(k as usize)
        },
{
    proof { use_type_invariant(&*lib); }
    if lib.position_of(&id).is_some() {
        return false;
    }
    let k = lib.files.len();
    let paths = copy_strings(&relative_paths);
    let mut tmp = FileLibrary::new();
    std::mem::swap(&mut tmp, lib);
    let FileLibrary { files: mut files, by_relative_path: mut index } = tmp;
    files.push(PhysicalFile { id, size, duration, relative_paths, raw_meta, absolute_paths: Vec::new() });
    proof {
        assert forall|i: int, j: int| 0 <= i < files@.len() && 0 <= j < files@.len() && i != j implies #[trigger] files@[i].id != #[trigger] files@[j].id by {
            if i < k && j < k {
                assert(files@[i] == old(lib).files@[i]);
                assert(files@[j] == old(lib).files@[j]);
            } else if i < k {
                assert(files@[i] == old(lib).files@[i]);
            } else {
                assert(files@[j] == old(lib).files@[j]);
            }
        }
    }
    let mut p: usize = 0;
    while p < paths.len()
        invariant
            p <= paths.len(),
            paths@ == relative_paths@,
            files@.len() == k + 1,
            index_in_range(index@, files@.len()),
            buckets_distinct(index@),
            forall|q: int| 0 <= q < p ==> #[trigger] bucket_of(index@, paths@[q]@).contains(k),
        decreases paths.len() - p,
    {
        let ghost before = index@;
        index.push_unique(paths[p].as_str(), k);
        proof {
            let key = paths@[p as int]@;
            lemma_push_unique_distinct(before, index@, key, k);
            assert(bucket_of(index@, key).contains(k)) by {
                if !bucket_of(before, key).contains(k) {
                    assert(bucket_of(index@, key) == bucket_of(before, key).push(k));
                    assert(bucket_of(index@, key)[bucket_of(before, key).len() as int] == k);
                }
            }
            assert forall|q: int| 0 <= q < p + 1 implies #[trigger] bucket_of(index@, paths@[q]@).contains(k) by {
                if q < p {
                    let kq = paths@[q]@;
                    assert(bucket_of(before, kq).contains(k));
                    if kq != key {
                        assert(bucket_of(index@, kq) == bucket_of(before, kq));
                    } else {
                    }
                }
            }
            assert forall|kk: Seq<char>, j: int| #[trigger] index@.contains_key(kk) && 0 <= j < index@[kk].len() implies #[trigger] index@[kk][j] < files@.len() by {
                if kk == key && !bucket_of(before, key).contains(k) {
                    if j < bucket_of(before, key).len() {
                        assert(index@[kk][j] == bucket_of(before, key)[j]);
                    }
                } else {
                    assert(index@[kk] == before[kk]);
                }
            }
        }
        p += 1;
    }
    *lib = FileLibrary { files, by_relative_path: index };
    assert(lib.files@.take(k as int) =~= old(lib).files@);
    true
}

/// Called by the scanner when it first finds a file. If a record filed under
/// `relative_path` has the same size, the file is taken to be that record:
/// `seen` is added to its absolute paths and its ID is returned. Otherwise
/// nothing changes and the file must be deeply scanned.
pub fn saw_file(lib: &mut FileLibrary, size: u64, mtime: u64, relative_path: &str, seen: SeenPath) -> (r: Option<FileID>)
    ensures
        final(lib).relative_index() == old(lib).relative_index(),
        ({
            let b = bucket_of(old(lib).relative_index(), relative_path@);
            let files = old(lib).files();
            match r {
                None => {
                    &&& forall|j: int| 0 <= j < b.len() ==> files[#[trigger] b[j] as int].size != size
                    &&& final(lib).files() == files
                },
                Some(id) => {
                    let j = first_with_size(files, b, size);
                    &&& 0 <= j < b.len()
                    &&& files[b[j] as int].size == size
                    &&& id == files[b[j] as int].id
                    &&& gained_path(files, final(lib).files(), b[j] as int, seen)
                },
            }
        }),
{
    proof { use_type_invariant(&*lib); }
    let _ = mtime;
    let b = lib.by_relative_path.get(relative_path);
    let mut j: usize = 0;
    while j < b.len()
        invariant
            j <= b.len(),
            b@ == bucket_of(lib.by_relative_path@, relative_path@),
            lib.files@ == old(lib).files@,
            lib.by_relative_path@ == old(lib).by_relative_path@,
            ids_unique(old(lib).files@),
            index_in_range(lib.by_relative_path@, lib.files@.len()),
            buckets_distinct(lib.by_relative_path@),
            forall|i: int| 0 <= i < j ==> lib.files@[#[trigger] b@[i] as int].size != size,
        decreases b.len() - j,
    {
        let k = b[j];
        proof {
            assert(lib.by_relative_path@.contains_key(relative_path@));
            assert(lib.by_relative_path@[relative_path@][j as int] < lib.files@.len());
        }
        if lib.files[k].size == size {
            let id = lib.files[k].id;
            let mut tmp = FileLibrary::new();
            std::mem::swap(&mut tmp, lib);
            let FileLibrary { files: mut files, by_relative_path: index } = tmp;
            let mut f = files.remove(k);
            f.absolute_paths.push(seen);
            files.insert(k, f);
            proof {
                assert(forall|a: int| 0 <= a < files@.len() && a != k ==> #[trigger] files@[a] == old(lib).files@[a]);
                assert forall|a: int, c: int| 0 <= a < files@.len() && 0 <= c < files@.len() && a != c implies #[trigger] files@[a].id != #[trigger] files@[c].id by {
                    assert(files@[a].id == old(lib).files@[a].id);
                    assert(files@[c].id == old(lib).files@[c].id);
                }
                let ghost jj = first_with_size(old(lib).files@, b@, size);
                assert(0 <= j < b@.len() && old(lib).files@[b@[j as int] as int].size == size
                    && forall|i: int| 0 <= i < j ==> old(lib).files@[#[trigger] b@[i] as int].size != size);
                if jj != j {
                    if jj < j {
                        assert(old(lib).files@[b@[jj] as int].size != size);
                    } else {
                        assert(old(lib).files@[b@[j as int] as int].size != size);
                    }
                }
            }
            *lib = FileLibrary { files, by_relative_path: index };
            return Some(id);
        }
        j += 1;
    }
    None
}

/// Called by the scanner when it has deeply scanned a file. If a record with
/// this ID exists, the scan must agree with it on size, duration and raw
/// metadata (in that order of checking); the relative path is added to the
/// record if it is new, and `seen` is added to its absolute paths. Otherwise a
/// new record is made. Either way the record is listed under `relative_path`,
/// once.
pub fn scanned_file(lib: &mut FileLibrary, id: &FileID, size: u64, mtime: u64, duration: u32,
                    relative_path: &str, seen: SeenPath, raw_meta: Metadata) -> (r: Result<ScannedFile, ScanMismatch>)
    ensures
        ({
            let files = old(lib).files();
            match r {
                Err(e) => {
                    &&& has_id(files, *id)
                    &&& final(lib).files() == files
                    &&& final(lib).relative_index() == old(lib).relative_index()
                    &&& exists|k: int| 0 <= k < files.len() && files[k].id == *id && match e {
                        ScanMismatch::Size { scanned_size, recorded_size } =>
                            scanned_size == size && recorded_size == files[k].size && size != files[k].size,
                        ScanMismatch::Duration { scanned_duration, recorded_duration } =>
                            size == files[k].size && scanned_duration == duration && recorded_duration == files[k].duration
                                && duration != files[k].duration,
                        ScanMismatch::Metadata =>
                            size == files[k].size && duration == files[k].duration
                                && raw_meta@ != files[k].raw_meta@,
                    }
                },
                Ok(ScannedFile::Added { index }) => {
                    &&& !has_id(files, *id)
                    &&& index == files.len()
                    &&& final(lib).files().len() == files.len() + 1
                    &&& final(lib).files().take(index as int) == files
                    &&& final(lib).files()[index as int].id == *id
                    &&& final(lib).files()[index as int].size == size
                    &&& final(lib).files()[index as int].duration == duration
                    &&& final(lib).files()[index as int].relative_paths@.len() == 1
                    &&& final(lib).files()[index as int].relative_paths@[0]@ == relative_path@
                    &&& final(lib).files()[index as int].raw_meta@ == raw_meta@
                    &&& final(lib).files()[index as int].absolute_paths@ == seq![seen]
                    &&& bucket_of(final(lib).relative_index(), relative_path@).contains(index)
                    &&& bucket_of(final(lib).relative_index(), relative_path@).no_duplicates()
                },
                Ok(ScannedFile::Known { index, relative_paths_changed }) => {
                    let f = files[index as int];
                    let nf = final(lib).files()[index as int];
                    &&& index < files.len()
                    &&& f.id == *id
                    &&& size == f.size && duration == f.duration && raw_meta@ == f.raw_meta@
                    &&& final(lib).files().len() == files.len()
                    &&& forall|j: int| 0 <= j < files.len() && j != index ==> #[trigger] final(lib).files()[j] == files[j]
                    &&& nf.id == f.id && nf.size == f.size && nf.duration == f.duration && nf.raw_meta@ == f.raw_meta@
                    &&& nf.absolute_paths@ == f.absolute_paths@.push(seen)
                    &&& relative_paths_changed == !(exists|p: int| 0 <= p < f.relative_paths@.len() && #[trigger] f.relative_paths@[p]@ == relative_path@)
                    &&& relative_paths_changed ==> nf.relative_paths@.len() == f.relative_paths@.len() + 1
                        && nf.relative_paths@.take(f.relative_paths@.len() as int) == f.relative_paths@
                        && nf.relative_paths@.last()@ == relative_path@
                    &&& !relative_paths_changed ==> nf.relative_paths@ == f.relative_paths@
                    &&& strings_view(f.relative_paths@).no_duplicates() ==> strings_view(nf.relative_paths@).no_duplicates()
                    &&& bucket_of(final(lib).relative_index(), relative_path@).contains(index)
                    &&& bucket_of(final(lib).relative_index(), relative_path@).no_duplicates()
                },
            }
        }),
{
    proof { use_type_invariant(&*lib); }
    let _ = mtime;
    let (k, result) = match lib.position_of(id) {
        Some(k) => {
            assert(old(lib).files()[k as int].id == *id);
            if size != lib.files[k].size {
                return Err(ScanMismatch::Size { scanned_size: size, recorded_size: lib.files[k].size });
            }
            if duration != lib.files[k].duration {
                return Err(ScanMismatch::Duration { scanned_duration: duration, recorded_duration: lib.files[k].duration });
            }
            if !raw_meta.same_as(&lib.files[k].raw_meta) {
                return Err(ScanMismatch::Metadata);
            }
            let mut tmp = FileLibrary::new();
            std::mem::swap(&mut tmp, lib);
            let FileLibrary { files: mut files, by_relative_path: index } = tmp;
            let mut f = files.remove(k);
            let known = contains_string(&f.relative_paths, relative_path);
            if !known {
                f.relative_paths.push(relative_path.to_owned());
            }
            f.absolute_paths.push(seen);
            files.insert(k, f);
            proof {
                assert(forall|a: int| 0 <= a < files@.len() && a != k ==> #[trigger] files@[a] == old(lib).files@[a]);
                assert forall|a: int, c: int| 0 <= a < files@.len() && 0 <= c < files@.len() && a != c implies #[trigger] files@[a].id != #[trigger] files@[c].id by {
                    assert(files@[a].id == old(lib).files@[a].id);
                    assert(files@[c].id == old(lib).files@[c].id);
                }
                if !known {
                    let op = old(lib).files@[k as int].relative_paths@;
                    let np = files@[k as int].relative_paths@;
                    assert(np.take(op.len() as int) =~= op);
                    if strings_view(op).no_duplicates() {
                        assert forall|a: int, c: int| 0 <= a < np.len() && 0 <= c < np.len() && a != c
                            implies strings_view(np)[a] != strings_view(np)[c] by {
                            if a < op.len() && c < op.len() {
                                assert(strings_view(np)[a] == strings_view(op)[a]);
                                assert(strings_view(np)[c] == strings_view(op)[c]);
                            } else if a < op.len() {
                                assert(np[a] == op[a]);
                                assert(op[a]@ != relative_path@);
                            } else {
                                assert(np[c] == op[c]);
                                assert(op[c]@ != relative_path@);
                            }
                        }
                    }
                }
            }
            *lib = FileLibrary { files, by_relative_path: index };
            (k, ScannedFile::Known { index: k, relative_paths_changed: !known })
        },
        None => {
            let k = lib.files.len();
            let mut rel: Vec<String> = Vec::new();
            rel.push(relative_path.to_owned());
            let mut abs: Vec<SeenPath> = Vec::new();
            abs.push(seen);
            let mut tmp = FileLibrary::new();
            std::mem::swap(&mut tmp, lib);
            let FileLibrary { files: mut files, by_relative_path: index } = tmp;
            files.push(PhysicalFile { id: *id, size, duration, relative_paths: rel, raw_meta, absolute_paths: abs });
            proof {
                assert forall|i: int, j: int| 0 <= i < files@.len() && 0 <= j < files@.len() && i != j implies #[trigger] files@[i].id != #[trigger] files@[j].id by {
                    if i < k && j < k {
                        assert(files@[i] == old(lib).files@[i]);
                        assert(files@[j] == old(lib).files@[j]);
                    } else if i < k {
                        assert(files@[i] == old(lib).files@[i]);
                    } else {
                        assert(files@[j] == old(lib).files@[j]);
                    }
                }
                assert(files@.take(k as int) =~= old(lib).files@);
                assert(files@[k as int].absolute_paths@ =~= seq![seen]);
                assert forall|kk: Seq<char>, j: int| #[trigger] index@.contains_key(kk) && 0 <= j < index@[kk].len() implies #[trigger] index@[kk][j] < files@.len() by {
                    assert(index@[kk][j] < old(lib).files@.len());
                }
            }
            *lib = FileLibrary { files, by_relative_path: index };
            (k, ScannedFile::Added { index: k })
        },
    };
    let mut tmp = FileLibrary::new();
    std::mem::swap(&mut tmp, lib);
    let FileLibrary { files, by_relative_path: mut index } = tmp;
    let ghost before = index@;
    index.push_unique(relative_path, k);
    proof {
        let key = relative_path@;
        lemma_push_unique_distinct(before, index@, key, k);
        assert(bucket_of(index@, key).contains(k)) by {
            if !bucket_of(before, key).contains(k) {
                assert(bucket_of(index@, key)[bucket_of(before, key).len() as int] == k);
            }
        }
        assert forall|kk: Seq<char>, j: int| #[trigger] index@.contains_key(kk) && 0 <= j < index@[kk].len() implies #[trigger] index@[kk][j] < files@.len() by {
            if kk == key && !bucket_of(before, key).contains(k) {
                if j < bucket_of(before, key).len() {
                    assert(index@[kk][j] == bucket_of(before, key)[j]);
                }
            } else {
                assert(index@[kk] == before[kk]);
            }
        }
    }
    *lib = FileLibrary { files, by_relative_path: index };
    Ok(result)
}

} // verus!
