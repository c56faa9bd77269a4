//! Where configuration files live. The search paths are worked out from the
//! environment (whose values the caller reads) and the kind of operating
//! system; a path is a base directory from the environment, followed by the
//! components to add to it.

use vstd::prelude::*;
use crate::text::{owned, copy_strings};

verus! {

/// The kinds of operating system whose configuration directories differ.
#[derive(Clone, Copy, Debug, PartialEq, Eq, Structural)]
pub enum OsKind {
    Windows,
    MacOs,
    /// Other Unix systems (the XDG base directories apply).
    Unix,
    Other,
}

/// The environment variables that decide the configuration directories, as
/// raw bytes.
pub struct ConfigEnv {
    pub tsong_config_home: Option<Vec<u8>>,
    pub appdata: Option<Vec<u8>>,
    pub userprofile: Option<Vec<u8>>,
    pub homepath: Option<Vec<u8>>,
    pub home: Option<Vec<u8>>,
    pub homedrive: Option<Vec<u8>>,
    pub xdg_config_dirs: Option<Vec<u8>>,
    pub xdg_config_home: Option<Vec<u8>>,
}

/// A directory: a base path, followed by components to add to it in order.
pub struct ConfigPath {
    pub base: Vec<u8>,
    pub parts: Vec<String>,
}

/// A directory, as mathematical values.
pub open spec fn path_view(p: ConfigPath) -> (Seq<u8>, Seq<Seq<char>>) {
    (p.base@, p.parts@.map_values(|s: String| s@))
}

/// The bytes of an optional environment value.
pub open spec fn env_view(v: Option<Vec<u8>>) -> Option<Seq<u8>> {
    match v {
        Some(b) => Some(b@),
        None => None,
    }
}

/// Splitting the first `n` bytes at colons: the pieces finished so far
/// (empty ones left out) and the piece being gathered.
pub open spec fn colon_split_step(s: Seq<u8>, n: int) -> (Seq<Seq<u8>>, Seq<u8>)
    decreases n,
{
    if n <= 0 {
        (Seq::empty(), Seq::empty())
    } else {
        let prev = colon_split_step(s, n - 1);
        if s[n - 1] == 58u8 {
            (if prev.1.len() > 0 { prev.0.push(prev.1) } else { prev.0 }, Seq::empty())
        } else {
            (prev.0, prev.1.push(s[n - 1]))
        }
    }
}

/// The non-empty pieces of `s` between colons, in order.
pub open spec fn colon_pieces(s: Seq<u8>) -> Seq<Seq<u8>> {
    let r = colon_split_step(s, s.len() as int);
    if r.1.len() > 0 { r.0.push(r.1) } else { r.0 }
}

/// `/etc/xdg`, the XDG default for configuration directories.
pub open spec fn etc_xdg() -> Seq<u8> {
    seq![47u8, 101u8, 116u8, 99u8, 47u8, 120u8, 100u8, 103u8]
}

/// `C:\`, where Windows keeps its files if nothing else is known.
pub open spec fn c_drive() -> Seq<u8> {
    seq![67u8, 58u8, 92u8]
}

/// `/home/.config`, the directory used when nothing else is known.
pub open spec fn last_ditch() -> Seq<u8> {
    seq![47u8, 104u8, 111u8, 109u8, 101u8, 47u8, 46u8, 99u8, 111u8, 110u8, 102u8, 105u8, 103u8]
}

/// The first present value of three.
pub open spec fn first_of(a: Option<Seq<u8>>, b: Option<Seq<u8>>, c: Option<Seq<u8>>) -> Option<Seq<u8>> {
    if a is Some { a } else if b is Some { b } else { c }
}

/// The configuration directories before `Tsong` is added to each, from the
/// most general to the most specific:
/// - `TSONG_CONFIG_HOME` alone, if set;
/// - on Windows, `APPDATA`; else `USERPROFILE`, `HOMEPATH` or `HOME` with
///   `AppData\Roaming`; else `HOMEDRIVE` (or `C:\`) with `Documents and
///   Settings`;
/// - on macOS, `HOME` with `Library/Application Support`;
/// - on other Unix systems, each directory of `XDG_CONFIG_DIRS` (default
///   `/etc/xdg`), then `XDG_CONFIG_HOME`, or else `HOME` with `.config`;
/// - elsewhere, `HOME` with `.config`;
/// - `/home/.config` if that gives nothing.
pub open spec fn base_dirs(env: ConfigEnv, os: OsKind) -> Seq<(Seq<u8>, Seq<Seq<char>>)> {
    let dirs = if env.tsong_config_home is Some {
        seq![(env_view(env.tsong_config_home)->0, Seq::<Seq<char>>::empty())]
    } else {
        match os {
            OsKind::Windows => if env.appdata is Some {
                seq![(env_view(env.appdata)->0, Seq::<Seq<char>>::empty())]
            } else if first_of(env_view(env.userprofile), env_view(env.homepath), env_view(env.home)) is Some {
                seq![(first_of(env_view(env.userprofile), env_view(env.homepath), env_view(env.home))->0,
                    seq!["AppData"@, "Roaming"@])]
            } else {
                seq![(if env.homedrive is Some { env_view(env.homedrive)->0 } else { c_drive() },
                    seq!["Documents and Settings"@])]
            },
            OsKind::MacOs => seq![(env_view(env.home)->0, seq!["Library"@, "Application Support"@])],
            OsKind::Unix => {
                let xdg = if env.xdg_config_dirs is Some { env_view(env.xdg_config_dirs)->0 } else { etc_xdg() };
                let general = colon_pieces(xdg).map_values(|d: Seq<u8>| (d, Seq::<Seq<char>>::empty()));
                if env.xdg_config_home is Some {
                    general.push((env_view(env.xdg_config_home)->0, Seq::<Seq<char>>::empty()))
                } else if env.home is Some {
                    general.push((env_view(env.home)->0, seq![".config"@]))
                } else {
                    general
                }
            },
            OsKind::Other => if env.home is Some {
                seq![(env_view(env.home)->0, seq![".config"@])]
            } else {
                Seq::empty()
            },
        }
    };
    if dirs.len() == 0 { seq![(last_ditch(), Seq::<Seq<char>>::empty())] } else { dirs }
}

/// The configuration search paths: each base directory with `Tsong` added.
pub open spec fn search_paths(env: ConfigEnv, os: OsKind) -> Seq<(Seq<u8>, Seq<Seq<char>>)> {
    base_dirs(env, os).map_values(|d: (Seq<u8>, Seq<Seq<char>>)| (d.0, d.1.push("Tsong"@)))
}

proof fn lemma_map_push<A, B>(s: Seq<A>, x: A, f: spec_fn(A) -> B)
    ensures
        s.push(x).map_values(f) == s.map_values(f).push(f(x)),
{
    assert(s.push(x).map_values(f) =~= s.map_values(f).push(f(x)));
}

/// There is always at least one configuration directory, and each one is a
/// `Tsong` directory.
pub proof fn law_search_paths_are_tsong_dirs(env: ConfigEnv, os: OsKind)
    ensures
        search_paths(env, os).len() > 0,
        forall|i: int| 0 <= i < search_paths(env, os).len() ==> (#[trigger] search_paths(env, os)[i]).1.last() == "Tsong"@,
{
}

/// On Windows, without `TSONG_CONFIG_HOME`, there is exactly one
/// configuration directory: `Tsong` right inside `APPDATA` when that is set,
/// else `AppData\Roaming\Tsong` inside the user's profile (`USERPROFILE`).
pub proof fn law_windows_config_dir(env: ConfigEnv)
    requires
        env.tsong_config_home is None,
    ensures
        env.appdata matches Some(a) ==> search_paths(env, OsKind::Windows) == seq![(a@, seq!["Tsong"@])],
        env.appdata is None ==> (env.userprofile matches Some(u) ==>
            search_paths(env, OsKind::Windows) == seq![(u@, seq!["AppData"@, "Roaming"@, "Tsong"@])]),
{
    let b = base_dirs(env, OsKind::Windows);
    if let Some(a) = env.appdata {
        assert(b == seq![(a@, Seq::<Seq<char>>::empty())]);
        assert(Seq::<Seq<char>>::empty().push("Tsong"@) =~= seq!["Tsong"@]);
        assert(search_paths(env, OsKind::Windows) =~= seq![(a@, seq!["Tsong"@])]);
    } else if let Some(u) = env.userprofile {
        assert(b == seq![(u@, seq!["AppData"@, "Roaming"@])]);
        assert(seq!["AppData"@, "Roaming"@].push("Tsong"@) =~= seq!["AppData"@, "Roaming"@, "Tsong"@]);
        assert(search_paths(env, OsKind::Windows) =~= seq![(u@, seq!["AppData"@, "Roaming"@, "Tsong"@])]);
    }
}

fn copy_bytes(v: &Vec<u8>) -> (r: Vec<u8>)
    ensures
        r@ == v@,
{
    let mut r: Vec<u8> = Vec::new();
    let mut i: usize = 0;
    while i < v.len()
        invariant
            i <= v.len(),
            r@ == v@.take(i as int),
        decreases v.len() - i,
    {
        r.push(v[i]);
        i += 1;
        assert(r@ =~= v@.take(i as int));
    }
    assert(v@.take(v.len() as int) =~= v@);
    r
}

/// The non-empty pieces of `s` between colons.
pub fn split_colons(s: &Vec<u8>) -> (r: Vec<Vec<u8>>)
    ensures
        r@.map_values(|v: Vec<u8>| v@) == colon_pieces(s@),
{
    let mut done: Vec<Vec<u8>> = Vec::new();
    let mut cur: Vec<u8> = Vec::new();
    let mut i: usize = 0;
    while i < s.len()
        invariant
            i <= s@.len(),
            done@.map_values(|v: Vec<u8>| v@) == colon_split_step(s@, i as int).0,
            cur@ == colon_split_step(s@, i as int).1,
        decreases s.len() - i,
    {
        let ghost before = done@;
        if s[i] == 58u8 {
            if cur.len() > 0 {
                let piece = copy_bytes(&cur);
                done.push(piece);
                assert(done@.map_values(|v: Vec<u8>| v@) =~= before.map_values(|v: Vec<u8>| v@).push(cur@));
            }
            cur = Vec::new();
        } else {
            cur.push(s[i]);
        }
        i += 1;
    }
    let ghost before = done@;
    if cur.len() > 0 {
        done.push(cur);
        assert(done@.map_values(|v: Vec<u8>| v@) =~= before.map_values(|v: Vec<u8>| v@).push(colon_split_step(s@, s@.len() as int).1));
    }
    done
}

fn opt_bytes(v: &Option<Vec<u8>>) -> (r: Option<Vec<u8>>)
    ensures
        env_view(r) == env_view(*v),
{
    match v {
        Some(b) => Some(copy_bytes(b)),
        None => None,
    }
}

fn dir_with(base: Vec<u8>, parts: Vec<String>) -> (r: ConfigPath)
    ensures
        path_view(r) == (base@, parts@.map_values(|s: String| s@)),
{
    ConfigPath { base, parts }
}

fn plain_dir(base: Vec<u8>) -> (r: ConfigPath)
    ensures
        path_view(r) == (base@, Seq::<Seq<char>>::empty()),
{
    let r = ConfigPath { base, parts: Vec::new() };
    assert(path_view(r).1 =~= Seq::<Seq<char>>::empty());
    r
}

fn dir1(base: Vec<u8>, a: &str) -> (r: ConfigPath)
    ensures
        path_view(r) == (base@, seq![a@]),
{
    let mut parts: Vec<String> = Vec::new();
    parts.push(owned(a));
    let r = ConfigPath { base, parts };
    assert(path_view(r).1 =~= seq![a@]);
    r
}

fn dir2(base: Vec<u8>, a: &str, b: &str) -> (r: ConfigPath)
    ensures
        path_view(r) == (base@, seq![a@, b@]),
{
    let mut parts: Vec<String> = Vec::new();
    parts.push(owned(a));
    parts.push(owned(b));
    let r = ConfigPath { base, parts };
    assert(path_view(r).1 =~= seq![a@, b@]);
    r
}

fn just(p: ConfigPath) -> (r: Vec<ConfigPath>)
    ensures
        r@.map_values(|p: ConfigPath| path_view(p)) == seq![path_view(p)],
{
    let mut r: Vec<ConfigPath> = Vec::new();
    r.push(p);
    assert(r@.map_values(|p: ConfigPath| path_view(p)) =~= seq![path_view(p)]);
    r
}

fn windows_dir(env: &ConfigEnv) -> (r: ConfigPath)
    requires
        env.tsong_config_home is None,
    ensures
        seq![path_view(r)] == base_dirs(*env, OsKind::Windows),
{
    match &env.appdata {
        Some(a) => plain_dir(copy_bytes(a)),
        None => {
            let profile = match &env.userprofile {
                Some(u) => Some(copy_bytes(u)),
                None => match &env.homepath {
                    Some(h) => Some(copy_bytes(h)),
                    None => opt_bytes(&env.home),
                },
            };
            match profile {
                Some(p) => dir2(p, "AppData", "Roaming"),
                None => {
                    let drive = match &env.homedrive {
                        Some(d) => copy_bytes(d),
                        None => {
                            let v: Vec<u8> = vec![67u8, 58u8, 92u8];
                            assert(v@ =~= c_drive());
                            v
                        },
                    };
                    dir1(drive, "Documents and Settings")
                },
            }
        },
    }
}

fn unix_dirs(env: &ConfigEnv) -> (r: Vec<ConfigPath>)
    requires
        env.tsong_config_home is None,
    ensures
        r@.map_values(|p: ConfigPath| path_view(p)) == {
            let xdg = if env.xdg_config_dirs is Some { env_view(env.xdg_config_dirs)->0 } else { etc_xdg() };
            let general = colon_pieces(xdg).map_values(|d: Seq<u8>| (d, Seq::<Seq<char>>::empty()));
            if env.xdg_config_home is Some {
                general.push((env_view(env.xdg_config_home)->0, Seq::<Seq<char>>::empty()))
            } else if env.home is Some {
                general.push((env_view(env.home)->0, seq![".config"@]))
            } else {
                general
            }
        },
{
    let xdg = match &env.xdg_config_dirs {
        Some(x) => copy_bytes(x),
        None => {
            let v: Vec<u8> = vec![47u8, 101u8, 116u8, 99u8, 47u8, 120u8, 100u8, 103u8];
            assert(v@ =~= etc_xdg());
            v
        },
    };
    let pieces = split_colons(&xdg);
    let ghost ps = colon_pieces(xdg@);
    let ghost general = ps.map_values(|d: Seq<u8>| (d, Seq::<Seq<char>>::empty()));
    let mut dirs: Vec<ConfigPath> = Vec::new();
    let mut k: usize = 0;
    while k < pieces.len()
        invariant
            k <= pieces@.len(),
            pieces@.map_values(|v: Vec<u8>| v@) == ps,
            general == ps.map_values(|d: Seq<u8>| (d, Seq::<Seq<char>>::empty())),
            dirs@.map_values(|p: ConfigPath| path_view(p)) == general.take(k as int),
        decreases pieces.len() - k,
    {
        let ghost before = dirs@;
        let d = plain_dir(copy_bytes(&pieces[k]));
        dirs.push(d);
        k += 1;
        proof {
            assert(ps[k - 1] == pieces@[k - 1]@);
            lemma_map_push(before, d, |p: ConfigPath| path_view(p));
            assert(general.take(k as int) =~= general.take(k - 1).push(general[k - 1]));
        }
    }
    assert(general.take(general.len() as int) =~= general);
    match &env.xdg_config_home {
        Some(h) => {
            dirs.push(plain_dir(copy_bytes(h)));
            assert(dirs@.map_values(|p: ConfigPath| path_view(p)) =~= general.push((h@, Seq::<Seq<char>>::empty())));
        },
        None => match &env.home {
            Some(h) => {
                dirs.push(dir1(copy_bytes(h), ".config"));
                assert(dirs@.map_values(|p: ConfigPath| path_view(p)) =~= general.push((h@, seq![".config"@])));
            },
            None => {},
        },
    }
    dirs
}

/// The directory `p` with one more component, `part`.
fn with_part(p: &ConfigPath, part: &str) -> (r: ConfigPath)
    ensures
        path_view(r) == (path_view(*p).0, path_view(*p).1.push(part@)),
{
    let base = copy_bytes(&p.base);
    let mut parts = copy_strings(&p.parts);
    let ghost before = parts@;
    parts.push(owned(part));
    assert(parts@.map_values(|s: String| s@) =~= before.map_values(|s: String| s@).push(part@));
    dir_with(base, parts)
}

/// The configuration search paths, from the most general to the most
/// specific (see `base_dirs`). Files found in later directories override
/// those in earlier ones; writing goes to the last one.
pub fn get_search_paths(env: &ConfigEnv, os: OsKind) -> (r: Vec<ConfigPath>)
    requires
        os == OsKind::MacOs && env.tsong_config_home is None ==> env.home is Some,
    ensures
        r@.map_values(|p: ConfigPath| path_view(p)) == search_paths(*env, os),
{
    let mut dirs: Vec<ConfigPath> = match &env.tsong_config_home {
        Some(c) => just(plain_dir(copy_bytes(c))),
        None => match os {
            OsKind::Windows => just(windows_dir(env)),
            OsKind::MacOs => {
                let home = match &env.home {
                    Some(h) => copy_bytes(h),
                    None => Vec::new(),
                };
                just(dir2(home, "Library", "Application Support"))
            },
            OsKind::Unix => unix_dirs(env),
            OsKind::Other => match &env.home {
                Some(h) => just(dir1(copy_bytes(h), ".config")),
                None => {
                    let v: Vec<ConfigPath> = Vec::new();
                    assert(v@.map_values(|p: ConfigPath| path_view(p)) =~= Seq::<(Seq<u8>, Seq<Seq<char>>)>::empty());
                    v
                },
            },
        },
    };
    if dirs.len() == 0 {
        let v: Vec<u8> = vec![47u8, 104u8, 111u8, 109u8, 101u8, 47u8, 46u8, 99u8, 111u8, 110u8, 102u8, 105u8, 103u8];
        assert(v@ =~= last_ditch());
        dirs = just(plain_dir(v));
    }
    assert(dirs@.map_values(|p: ConfigPath| path_view(p)) =~= base_dirs(*env, os));
    let mut r: Vec<ConfigPath> = Vec::new();
    let mut i: usize = 0;
    while i < dirs.len()
        invariant
            i <= dirs@.len(),
            dirs@.map_values(|p: ConfigPath| path_view(p)) == base_dirs(*env, os),
            r@.map_values(|p: ConfigPath| path_view(p)) == search_paths(*env, os).take(i as int),
        decreases dirs.len() - i,
    {
        let ghost before = r@;
        let d = with_part(&dirs[i], "Tsong");
        r.push(d);
        i += 1;
        proof {
            assert(path_view(dirs@[i - 1]) == base_dirs(*env, os)[i - 1]);
            lemma_map_push(before, d, |p: ConfigPath| path_view(p));
            let sp = search_paths(*env, os);
            assert(sp.take(i as int) =~= sp.take(i - 1).push(sp[i - 1]));
        }
    }
    assert(search_paths(*env, os).take(dirs@.len() as int) =~= search_paths(*env, os));
    r
}

/// The path of a configuration file in the most specific directory (where
/// files are written): the last search path, with `name` added.
pub fn get_config_file_path(paths: &Vec<ConfigPath>, name: &str) -> (r: ConfigPath)
    requires
        paths@.len() > 0,
    ensures
        path_view(r) == (path_view(paths@.last()).0, path_view(paths@.last()).1.push(name@)),
{
    with_part(&paths[paths.len() - 1], name)
}

/// The suffix of the backup of a configuration file's previous version.
pub fn backup_suffix(os: OsKind) -> (r: &'static str)
    ensures
        r@ == if os == OsKind::Windows { ".bak"@ } else { "~"@ },
{
    if os == OsKind::Windows { ".bak" } else { "~" }
}

/// The suffix of a configuration file's new version while it is written.
pub fn new_suffix(os: OsKind) -> (r: &'static str)
    ensures
        r@ == if os == OsKind::Windows { ".neu"@ } else { "^"@ },
{
    if os == OsKind::Windows { ".neu" } else { "^" }
}

/// Which configuration file to read, given, for each search path in order
/// (the most specific last), whether the file and whether its backup exist
/// there: the most specific path where either exists, and whether to read
/// the backup (only when the file itself is not there); `None` when neither
/// exists anywhere.
pub fn best_config_choice(found: &Vec<(bool, bool)>) -> (r: Option<(usize, bool)>)
    ensures
        match r {
            None => forall|j: int| 0 <= j < found@.len() ==> !(#[trigger] found@[j]).0 && !found@[j].1,
            Some((i, backup)) => {
                &&& i < found@.len()
                &&& found@[i as int].0 || found@[i as int].1
                &&& backup == !found@[i as int].0
                &&& forall|j: int| i < j < found@.len() ==> !(#[trigger] found@[j]).0 && !found@[j].1
            },
        },
{
    let mut k: usize = found.len();
    while k > 0
        invariant
            k <= found@.len(),
            forall|j: int| k <= j < found@.len() ==> !(#[trigger] found@[j]).0 && !found@[j].1,
        decreases k,
    {
        k -= 1;
        let (file, backup) = found[k];
        if file {
            return Some((k, false));
        }
        if backup {
            return Some((k, true));
        }
    }
    None
}

} // verus!
