use tsong::metadata::Metadata;
use tsong::physical::{FileID, FileLibrary, SeenPath, ScannedFile, ScanMismatch, add_file_from_db, get_file_by_id, saw_file, scanned_file};
use tsong::logical::{SongID, SongLibrary, SimilarityRec, Incorporation, add_new_song, incorporate_physical,
    get_song_by_song_id, get_generation, set_song_metadata, simple_import_metadata};
use tsong::import::{imported_metadata, import_metadata, new_song_metadata};

fn meta(pairs: &[(&str, &str)]) -> Metadata {
    let mut m = Metadata::new();
    for (k, v) in pairs {
        m.insert(k.to_string(), v.to_string());
    }
    m
}

fn seen(path: &str, name: &str) -> SeenPath {
    SeenPath { path: path.to_owned(), file_name: name.to_owned() }
}

#[test]
fn file_id_is_sha256_of_contents() {
    let id = FileID::from_file(b"abc");
    let expected: [u8; 32] = [
        0xba, 0x78, 0x16, 0xbf, 0x8f, 0x01, 0xcf, 0xea, 0x41, 0x41, 0x40, 0xde, 0x5d, 0xae, 0x22, 0x23,
        0xb0, 0x03, 0x61, 0xa3, 0x96, 0x17, 0x7a, 0x9c, 0xb4, 0x10, 0xff, 0x61, 0xf2, 0x00, 0x15, 0xad,
    ];
    assert_eq!(id.as_bytes(), &expected);
    assert_eq!(FileID::from_hash(&expected), id);
}

#[test]
fn file_id_from_bytes_checks_length() {
    let bytes = [7u8; 32];
    assert!(FileID::from_bytes(&bytes).is_ok());
    let err = FileID::from_bytes(&bytes[..31]).unwrap_err();
    assert_eq!(err.len, 31);
}

#[test]
fn similarity_of_identical_records() {
    let m = meta(&[("title", "Marco Polo"), ("artist", "Loreena McKennitt"), ("album", "The Book of Secrets")]);
    let a = SimilarityRec::new("marco.flac".to_owned(), 400, &m);
    let b = SimilarityRec::new("marco.flac".to_owned(), 400, &m);
    assert_eq!(a.get_similarity_to(&b), 150);
}

#[test]
fn similarity_duration_score() {
    let m = Metadata::new();
    let a = SimilarityRec::new("x.mp3".to_owned(), 100, &m);
    let b = SimilarityRec::new("y.mp3".to_owned(), 102, &m);
    // no names match; two seconds apart: 30 - 20 = 10
    assert_eq!(a.get_similarity_to(&b), 10);
    let c = SimilarityRec::new("y.mp3".to_owned(), 200, &m);
    // far apart: capped at -20
    assert_eq!(a.get_similarity_to(&c), -20);
}

#[test]
fn similarity_is_symmetric() {
    let a = SimilarityRec::new("a.ogg".to_owned(), 180, &meta(&[("title", "Song"), ("album", "")]));
    let b = SimilarityRec::new("a.ogg".to_owned(), 181, &meta(&[("title", "Song"), ("artist", "Band")]));
    // file name 20, title 40, one second apart 20
    assert_eq!(a.get_similarity_to(&b), 80);
    assert_eq!(b.get_similarity_to(&a), 80);
}

#[test]
fn file_library_scans_and_recognizes() {
    let mut files = FileLibrary::new();
    let id = FileID::from_file(b"song one");
    let raw = meta(&[("title", "One")]);
    let r = scanned_file(&mut files, &id, 1000, 0, 180, "a/one.mp3", seen("/m/a/one.mp3", "one.mp3"), raw.clone());
    assert_eq!(r, Ok(ScannedFile::Added { index: 0 }));
    // seen again at the same relative path with the same size: recognized
    assert_eq!(saw_file(&mut files, 1000, 0, "a/one.mp3", seen("/m/a/one.mp3", "one.mp3")), Some(id));
    // different size: not recognized
    assert_eq!(saw_file(&mut files, 999, 0, "a/one.mp3", seen("/m/a/one.mp3", "one.mp3")), None);
    // the same file under another path
    let r = scanned_file(&mut files, &id, 1000, 0, 180, "b/one.mp3", seen("/m/b/one.mp3", "one.mp3"), raw.clone());
    assert_eq!(r, Ok(ScannedFile::Known { index: 0, relative_paths_changed: true }));
    let f = get_file_by_id(&files, &id).unwrap();
    assert_eq!(f.relative_paths, vec!["a/one.mp3".to_owned(), "b/one.mp3".to_owned()]);
}

#[test]
fn file_library_mismatches() {
    let mut files = FileLibrary::new();
    let id = FileID::from_file(b"song two");
    let raw = meta(&[("title", "Two")]);
    assert!(add_file_from_db(&mut files, id, 500, 60, vec!["two.ogg".to_owned()], raw.clone()));
    assert!(!add_file_from_db(&mut files, id, 500, 60, vec!["two.ogg".to_owned()], raw.clone()));
    let r = scanned_file(&mut files, &id, 501, 0, 60, "two.ogg", seen("/m/two.ogg", "two.ogg"), raw.clone());
    assert_eq!(r, Err(ScanMismatch::Size { scanned_size: 501, recorded_size: 500 }));
    let r = scanned_file(&mut files, &id, 500, 0, 61, "two.ogg", seen("/m/two.ogg", "two.ogg"), raw.clone());
    assert_eq!(r, Err(ScanMismatch::Duration { scanned_duration: 61, recorded_duration: 60 }));
    let r = scanned_file(&mut files, &id, 500, 0, 60, "two.ogg", seen("/m/two.ogg", "two.ogg"), meta(&[("title", "Deux")]));
    assert_eq!(r, Err(ScanMismatch::Metadata));
}

#[test]
fn song_library_merges_similar_files() {
    let mut lib = SongLibrary::new();
    let m = meta(&[("title", "Marco Polo"), ("artist", "Loreena McKennitt"), ("album", "The Book of Secrets")]);
    let f1 = FileID::from_file(b"marco 1");
    let f2 = FileID::from_file(b"marco 2");
    let rec1 = SimilarityRec::new("marco.flac".to_owned(), 400, &m);
    let g0 = get_generation(&lib);
    assert_eq!(incorporate_physical(&mut lib, f1, rec1.clone()), Incorporation::NeedsNewSong);
    let index = add_new_song(&mut lib, SongID::from_inner(7), simple_import_metadata(&m), f1, rec1.clone());
    assert_eq!(index, 0);
    assert_ne!(get_generation(&lib), g0);
    assert_eq!(incorporate_physical(&mut lib, f1, rec1.clone()), Incorporation::AlreadyKnown);
    let g1 = get_generation(&lib);
    assert_eq!(incorporate_physical(&mut lib, f1, rec1.clone()), Incorporation::AlreadyKnown);
    assert_eq!(get_generation(&lib), g1);
    let rec2 = SimilarityRec::new("marco.mp3".to_owned(), 401, &m);
    assert_eq!(incorporate_physical(&mut lib, f2, rec2.clone()), Incorporation::Merged { index: 0 });
    assert_ne!(get_generation(&lib), g1);
    // a merged file is known: offering it again changes nothing
    let g2 = get_generation(&lib);
    assert_eq!(incorporate_physical(&mut lib, f2, rec2), Incorporation::AlreadyKnown);
    assert_eq!(get_generation(&lib), g2);
    let song = get_song_by_song_id(&lib, SongID::from_inner(7)).unwrap();
    assert_eq!(song.get_physical_files(), &vec![f1, f2]);
    assert!(get_song_by_song_id(&lib, SongID::from_inner(8)).is_none());
}

#[test]
fn set_duration_records_metadata() {
    let mut lib = SongLibrary::new();
    let m = meta(&[("title", "T")]);
    let f = FileID::from_file(b"t");
    add_new_song(&mut lib, SongID::from_inner(1), Metadata::new(), f, SimilarityRec::new("t.mp3".to_owned(), 10, &m));
    let id = SongID::from_inner(1);
    let g0 = get_generation(&lib);
    assert!(id.set_duration(&mut lib, 296));
    let g1 = get_generation(&lib);
    assert_ne!(g1, g0);
    assert!(!id.set_duration(&mut lib, 296));
    assert_eq!(get_generation(&lib), g1);
    let song = get_song_by_song_id(&lib, id).unwrap();
    assert_eq!(song.get_duration(), 296);
    assert_eq!(song.get_metadata().get("duration").map(|s| s.as_str()), Some("296"));
}

#[test]
fn replacing_song_metadata_bumps_generation() {
    let mut lib = SongLibrary::new();
    let f = FileID::from_file(b"u");
    add_new_song(&mut lib, SongID::from_inner(3), Metadata::new(), f, SimilarityRec::new("u.mp3".to_owned(), 10, &Metadata::new()));
    let g = get_generation(&lib);
    assert!(set_song_metadata(&mut lib, 0, meta(&[("artist", "A")])));
    assert_ne!(get_generation(&lib), g);
    assert_eq!(lib.song_at(0).get_metadata().get("artist").map(|s| s.as_str()), Some("A"));
}

#[test]
fn simple_import_keeps_known_tags() {
    let raw = meta(&[("title", "T"), ("artist", "A"), ("album", "B"), ("genre", "G")]);
    let m = simple_import_metadata(&raw);
    assert_eq!(m.get("title").map(|s| s.as_str()), Some("T"));
    assert_eq!(m.get("artist").map(|s| s.as_str()), Some("A"));
    assert_eq!(m.get("album").map(|s| s.as_str()), Some("B"));
    assert_eq!(m.get("raw_genre").map(|s| s.as_str()), Some("G"));
    assert_eq!(m.get("genre"), None);
}

fn scanned_record() -> (FileLibrary, FileID) {
    let mut files = FileLibrary::new();
    let id = FileID::from_file(b"import me");
    let raw = meta(&[("Title", "Marco Polo"), ("TRACK", "3")]);
    scanned_file(&mut files, &id, 10, 0, 367, "marco.flac", seen("/m/marco.flac", "marco.flac"), raw).unwrap();
    (files, id)
}

#[test]
fn import_with_the_built_in_script() {
    let (files, id) = scanned_record();
    let file = get_file_by_id(&files, &id).unwrap();
    let out = tsong::import::import_metadata(SongID::from_inner(0), &Metadata::new(), file, None);
    assert!(out.script_error.is_none());
    let m = out.result.unwrap();
    assert_eq!(m.get("title").map(|s| s.as_str()), Some("Marco Polo"));
    assert_eq!(m.get("track#").map(|s| s.as_str()), Some("3"));
    assert_eq!(m.get("unchecked").map(|s| s.as_str()), Some("1"));
    assert_eq!(m.get("duration").map(|s| s.as_str()), Some("367"));
    // an existing song keeps its tags and is not marked unchecked
    let out = tsong::import::import_metadata(SongID::from_inner(5), &meta(&[("title", "Mine")]), file, None);
    let m = out.result.unwrap();
    assert_eq!(m.get("title").map(|s| s.as_str()), Some("Mine"));
    assert_eq!(m.get("unchecked"), None);
}

#[test]
fn import_with_a_user_script() {
    let (files, id) = scanned_record();
    let file = get_file_by_id(&files, &id).unwrap();
    let script = "outmeta.where = path; outmeta.name = filenames[1]; outmeta.id = file_id";
    let out = tsong::import::import_metadata(SongID::from_inner(0), &Metadata::new(), file, Some(script));
    let m = out.result.unwrap();
    assert_eq!(m.get("where").map(|s| s.as_str()), Some("/m/marco.flac"));
    assert_eq!(m.get("name").map(|s| s.as_str()), Some("marco.flac"));
    assert_eq!(m.get("id").cloned(), Some(id.to_hex()));
    // a script that does not compile is passed over for the built-in one
    let out = tsong::import::import_metadata(SongID::from_inner(0), &Metadata::new(), file, Some("outmeta ="));
    assert!(out.script_error.is_some());
    assert_eq!(out.result.unwrap().get("unchecked").map(|s| s.as_str()), Some("1"));
    // a script that fails while running is an error
    let out = tsong::import::import_metadata(SongID::from_inner(0), &Metadata::new(), file, Some("error('no')"));
    assert!(out.result.is_err());
}

#[test]
fn example_script_written_only_when_different() {
    let text = tsong::import::EXAMPLE_IMPORT_SCRIPT;
    assert_eq!(tsong::import::maybe_write_example_import_script(Some(text)), None);
    assert_eq!(tsong::import::maybe_write_example_import_script(Some("old")), Some(text));
    assert_eq!(tsong::import::maybe_write_example_import_script(None), Some(text));
}

#[test]
fn file_id_in_hexadecimal() {
    let id = FileID::from_file(b"abc");
    assert_eq!(id.to_hex(), "ba7816bf8f01cfea414140de5dae2223b00361a396177a9cb410ff61f20015ad");
}

#[test]
fn songs_describe_themselves() {
    let mut lib = SongLibrary::new();
    let file_meta = meta(&[("title", "From File"), ("artist", "File Artist")]);
    let f1 = FileID::from_file(b"d1");
    add_new_song(&mut lib, SongID::from_inner(5), meta(&[("title", "Marco Polo"), ("artist", "Loreena McKennitt")]),
        f1, SimilarityRec::new("m.flac".to_owned(), 10, &file_meta));
    let f2 = FileID::from_file(b"d2");
    add_new_song(&mut lib, SongID::from_inner(6), meta(&[("artist", "Someone")]), f2,
        SimilarityRec::new("n.flac".to_owned(), 10, &Metadata::new()));
    let f3 = FileID::from_file(b"d3");
    add_new_song(&mut lib, SongID::from_inner(7), Metadata::new(), f3,
        SimilarityRec::new("o.flac".to_owned(), 10, &file_meta));
    let f4 = FileID::from_file(b"d4");
    add_new_song(&mut lib, SongID::from_inner(8), Metadata::new(), f4,
        SimilarityRec::new("p.flac".to_owned(), 10, &Metadata::new()));
    let d = |id: u64| get_song_by_song_id(&lib, SongID::from_inner(id)).unwrap().describe();
    assert_eq!(d(5), "Song ID #5, Marco Polo, by Loreena McKennitt");
    assert_eq!(d(6), "Song ID #6, a song by Someone");
    assert_eq!(d(7), "Song ID #7, From File, by File Artist");
    assert_eq!(d(8), "Song ID #8");
}

#[test]
fn imported_metadata_takes_script_pairs_and_duration() {
    let left = vec![("title".to_owned(), "A".to_owned()), ("duration".to_owned(), "1".to_owned()),
        ("title".to_owned(), "B".to_owned())];
    let m = imported_metadata(left, 245);
    assert_eq!(m.get("title").map(|s| s.as_str()), Some("B"));
    assert_eq!(m.get("duration").map(|s| s.as_str()), Some("245"));
    assert_eq!(m.entry_count(), 2);
}

#[test]
fn import_runs_script_on_outmeta() {
    let mut files = FileLibrary::new();
    let id = FileID::from_file(b"imported");
    let raw = meta(&[("title", "Raw Title"), ("artist", "Raw Artist")]);
    scanned_file(&mut files, &id, 10, 0, 77, "x/i.flac", seen("/m/x/i.flac", "i.flac"), raw).unwrap();
    let f = get_file_by_id(&files, &id).unwrap();
    let script = "outmeta.title = inmeta.title .. '!'\noutmeta.name = filename";
    let r = import_metadata(SongID::from_inner(0), &meta(&[("old", "kept")]), f, Some(script));
    assert!(r.script_error.is_none());
    let m = r.result.unwrap();
    assert_eq!(m.get("title").map(|s| s.as_str()), Some("Raw Title!"));
    assert_eq!(m.get("name").map(|s| s.as_str()), Some("i.flac"));
    assert_eq!(m.get("old").map(|s| s.as_str()), Some("kept"));
    assert_eq!(m.get("duration").map(|s| s.as_str()), Some("77"));
    let bad = import_metadata(SongID::from_inner(0), &Metadata::new(), f, Some("outmeta.title = "));
    assert!(bad.script_error.is_some());
}

#[test]
fn new_song_metadata_falls_back_to_simple_import() {
    let raw = meta(&[("title", "T"), ("genre", "G")]);
    let ok = new_song_metadata(Ok(meta(&[("title", "Imported")])), &raw);
    assert_eq!(ok.get("title").map(|s| s.as_str()), Some("Imported"));
    assert_eq!(ok.entry_count(), 1);
    let fallback = new_song_metadata(Err("boom".to_owned()), &raw);
    assert_eq!(fallback.get("title").map(|s| s.as_str()), Some("T"));
    assert_eq!(fallback.get("raw_genre").map(|s| s.as_str()), Some("G"));
    assert_eq!(fallback.entry_count(), 2);
}
