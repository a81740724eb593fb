//! Installing the managed engines: which release to read, which of its
//! assets to fetch, and which archive entry is the program.
use crate::models::EngineKind;
use crate::text::{
    chars_of, contains, ends_with, has_suffix, contains_seq, seq_eq, split_chars, split_seq,
    string_of, views,
};
use vstd::prelude::*;

verus! {

/// A managed engine once installed: where its program is, and the version.
pub struct InstalledEngine {
    pub executable_path: String,
    pub version: String,
}

/// Why an engine cannot be installed.
#[derive(Debug, Clone, Copy, PartialEq, Eq, Structural)]
pub enum InstallError {
    /// qBittorrent runs elsewhere and has no managed program.
    NoManagedExecutable,
    /// The release has no asset for this platform.
    AssetNotFound(EngineKind),
}

impl InstallError {
    pub fn message(&self) -> (r: &'static str)
        ensures
            r@ == (match self {
                InstallError::NoManagedExecutable => "qBittorrent does not have a managed executable"@,
                InstallError::AssetNotFound(EngineKind::YtDlp) => "yt-dlp.exe release asset not found"@,
                InstallError::AssetNotFound(_) => "aria2 Windows 64-bit release asset not found"@,
            }),
    {
        match self {
            InstallError::NoManagedExecutable => "qBittorrent does not have a managed executable",
            InstallError::AssetNotFound(EngineKind::YtDlp) => "yt-dlp.exe release asset not found",
            InstallError::AssetNotFound(_) => "aria2 Windows 64-bit release asset not found",
        }
    }
}

/// How to install an engine: the release to read, the program's file
/// name, and whether the program comes inside a zip archive.
pub struct InstallPlan {
    pub release_url: String,
    pub executable_name: String,
    pub zipped: bool,
}

/// The install plan of each managed engine; qBittorrent has none.
pub open spec fn spec_install_plan(engine: EngineKind) -> Option<(Seq<char>, Seq<char>, bool)> {
    match engine {
        EngineKind::YtDlp => Some(
            ("https://api.github.com/repos/yt-dlp/yt-dlp/releases/latest"@, "yt-dlp.exe"@, false),
        ),
        EngineKind::Aria2 => Some(
            ("https://api.github.com/repos/aria2/aria2/releases/latest"@, "aria2c.exe"@, true),
        ),
        EngineKind::QBittorrent => None,
    }
}

/// How the latest release of a managed engine is installed.
pub fn install_latest(engine: EngineKind) -> (r: Result<InstallPlan, InstallError>)
    ensures
        match r {
            Ok(p) => spec_install_plan(engine) == Some((p.release_url@, p.executable_name@, p.zipped)),
            Err(e) => spec_install_plan(engine) is None && e == InstallError::NoManagedExecutable,
        },
{
    match engine {
        EngineKind::YtDlp => Ok(InstallPlan {
            release_url: "https://api.github.com/repos/yt-dlp/yt-dlp/releases/latest".to_owned(),
            executable_name: "yt-dlp.exe".to_owned(),
            zipped: false,
        }),
        EngineKind::Aria2 => Ok(InstallPlan {
            release_url: "https://api.github.com/repos/aria2/aria2/releases/latest".to_owned(),
            executable_name: "aria2c.exe".to_owned(),
            zipped: true,
        }),
        EngineKind::QBittorrent => Err(InstallError::NoManagedExecutable),
    }
}

/// The release asset that holds an engine: `yt-dlp.exe`, or aria2's
/// 64-bit Windows zip (not the Android build).
pub open spec fn asset_wanted(engine: EngineKind, name: Seq<char>) -> bool {
    match engine {
        EngineKind::YtDlp => name == "yt-dlp.exe"@,
        _ => contains_seq(name, "-win-64bit-"@) && ends_with(name, ".zip"@) && !contains_seq(
            name,
            "android"@,
        ),
    }
}

/// The position of the first asset that holds the engine.
pub open spec fn spec_release_asset(engine: EngineKind, names: Seq<Seq<char>>) -> Option<int> {
    if exists|i: int| 0 <= i < names.len() && asset_wanted(engine, names[i]) {
        Some(choose|i: int| 0 <= i < names.len() && asset_wanted(engine, names[i]) && forall|j: int| 0 <= j < i ==> !asset_wanted(engine, names[j]))
    } else {
        None
    }
}

pub fn select_release_asset(engine: EngineKind, names: &[String]) -> (r: Result<usize, InstallError>)
    requires
        engine != EngineKind::QBittorrent,
    ensures
        match r {
            Ok(i) => spec_release_asset(engine, names@.map_values(|s: String| s@)) == Some(i as int),
            Err(e) => spec_release_asset(engine, names@.map_values(|s: String| s@)) is None && e == InstallError::AssetNotFound(engine),
        },
{
    let ghost ns = names@.map_values(|s: String| s@);
    let mut i: usize = 0;
    while i < names.len()
        invariant
            i <= names@.len(),
            ns == names@.map_values(|s: String| s@),
            forall|j: int| 0 <= j < i ==> !asset_wanted(engine, #[trigger] ns[j]),
        decreases names.len() - i,
    {
        let n = chars_of(names[i].as_str());
        let wanted = match engine {
            EngineKind::YtDlp => seq_eq(&n, &chars_of("yt-dlp.exe")),
            _ => contains(&n, &chars_of("-win-64bit-")) && has_suffix(&n, &chars_of(".zip")) && !contains(
                &n,
                &chars_of("android"),
            ),
        };
        proof {
            assert(ns[i as int] == n@);
        }
        if wanted {
            proof {
                let c = choose|c: int| 0 <= c < ns.len() && asset_wanted(engine, ns[c]) && forall|j: int| 0 <= j < c ==> !asset_wanted(engine, ns[j]);
                assert(0 <= i < ns.len() && asset_wanted(engine, ns[i as int]) && forall|j: int| 0 <= j < i ==> !asset_wanted(engine, ns[j]));
                if c < i {
                    assert(!asset_wanted(engine, ns[c]));
                }
                if i < c {
                    assert(!asset_wanted(engine, ns[i as int]));
                }
            }
            return Ok(i);
        }
        i = i + 1;
    }
    Err(InstallError::AssetNotFound(engine))
}

/// An archive entry is the file when its last path part, with `\\` read as
/// `/`, is the file's name.
pub open spec fn spec_zip_entry_matches(entry: Seq<char>, file_name: Seq<char>) -> bool {
    split_seq(entry, false, seq!['/', '\\']).last() == file_name
}

pub fn zip_entry_matches(entry: &str, file_name: &str) -> (r: bool)
    ensures
        r == spec_zip_entry_matches(entry@, file_name@),
{
    let e = chars_of(entry);
    let seps: Vec<char> = vec!['/', '\\'];
    proof {
        assert(seps@ =~= seq!['/', '\\']);
        crate::text::lemma_split_nonempty(e@, false, seq!['/', '\\']);
    }
    let parts = split_chars(&e, false, &seps);
    proof {
        assert(views(parts@).last() == parts@[parts@.len() - 1]@);
    }
    seq_eq(&parts[parts.len() - 1], &chars_of(file_name))
}


/// What the `zip` crate reads from an archive's bytes: the number of its
/// entries, or the error's text.
pub uninterp spec fn zip_entry_count(bytes: Seq<u8>) -> Result<usize, Seq<char>>;

/// The name of an archive's entry at an index, or the error's text.
pub uninterp spec fn zip_entry_name(bytes: Seq<u8>, index: int) -> Result<Seq<char>, Seq<char>>;

/// The unpacked content of an archive's entry at an index, or the error's
/// text.
pub uninterp spec fn zip_entry_content(bytes: Seq<u8>, index: int) -> Result<Seq<u8>, Seq<char>>;

/// `zip::ZipArchive::new` on the bytes, then `len()`: the number of
/// entries, or the error's text. The result is named, not stated.
#[verifier::external_body]
fn read_zip_entry_count(bytes: &[u8]) -> (r: Result<usize, String>)
    ensures
        match r {
            Ok(n) => zip_entry_count(bytes@) == Ok::<usize, Seq<char>>(n),
            Err(e) => zip_entry_count(bytes@) == Err::<usize, Seq<char>>(e@),
        },
{
    match zip::ZipArchive::new(std::io::Cursor::new(bytes)) {
        Ok(archive) => Ok(archive.len()),
        Err(error) => Err(error.to_string()),
    }
}

/// `zip::ZipArchive::new` on the bytes, then `by_index(index)` and
/// `name()`: the entry's name, or the error's text. The result is named,
/// not stated.
#[verifier::external_body]
fn read_zip_entry_name(bytes: &[u8], index: usize) -> (r: Result<String, String>)
    ensures
        match r {
            Ok(n) => zip_entry_name(bytes@, index as int) == Ok::<Seq<char>, Seq<char>>(n@),
            Err(e) => zip_entry_name(bytes@, index as int) == Err::<Seq<char>, Seq<char>>(e@),
        },
{
    let mut archive = match zip::ZipArchive::new(std::io::Cursor::new(bytes)) {
        Ok(archive) => archive,
        Err(error) => return Err(error.to_string()),
    };
    let entry = match archive.by_index(index) {
        Ok(entry) => entry,
        Err(error) => return Err(error.to_string()),
    };
    match entry.name() {
        Ok(name) => Ok(name.into_owned()),
        Err(error) => Err(error.to_string()),
    }
}

/// `zip::ZipArchive::new` on the bytes, then `by_index(index)` read to its
/// end: the entry's unpacked bytes, or the error's text. The result is
/// named, not stated.
#[verifier::external_body]
fn read_zip_entry_content(bytes: &[u8], index: usize) -> (r: Result<Vec<u8>, String>)
    ensures
        match r {
            Ok(c) => zip_entry_content(bytes@, index as int) == Ok::<Seq<u8>, Seq<char>>(c@),
            Err(e) => zip_entry_content(bytes@, index as int) == Err::<Seq<u8>, Seq<char>>(e@),
        },
{
    let mut archive = match zip::ZipArchive::new(std::io::Cursor::new(bytes)) {
        Ok(archive) => archive,
        Err(error) => return Err(error.to_string()),
    };
    let mut entry = match archive.by_index(index) {
        Ok(entry) => entry,
        Err(error) => return Err(error.to_string()),
    };
    let mut content = Vec::new();
    match std::io::Read::read_to_end(&mut entry, &mut content) {
        Ok(_) => Ok(content),
        Err(error) => Err(error.to_string()),
    }
}

/// The first entry, from index `i` on, whose last path part is the file's
/// name; an entry that cannot be read stops the search.
pub open spec fn zip_search(bytes: Seq<u8>, file_name: Seq<char>, i: int, n: int) -> Result<int, Seq<char>>
    decreases n - i,
{
    if i >= n {
        Err(file_name + " not found in release archive"@)
    } else {
        match zip_entry_name(bytes, i) {
            Err(e) => Err(e),
            Ok(name) => if spec_zip_entry_matches(name, file_name) {
                Ok(i)
            } else {
                zip_search(bytes, file_name, i + 1, n)
            },
        }
    }
}

/// Where a file lies in a release archive.
pub open spec fn spec_find_zip_index(bytes: Seq<u8>, file_name: Seq<char>) -> Result<int, Seq<char>> {
    match zip_entry_count(bytes) {
        Err(e) => Err(e),
        Ok(n) => zip_search(bytes, file_name, 0, n as int),
    }
}

pub fn find_zip_index(bytes: &[u8], file_name: &str) -> (r: Result<usize, String>)
    ensures
        match r {
            Ok(i) => spec_find_zip_index(bytes@, file_name@) == Ok::<int, Seq<char>>(i as int),
            Err(e) => spec_find_zip_index(bytes@, file_name@) == Err::<int, Seq<char>>(e@),
        },
{
    let n = read_zip_entry_count(bytes)?;
    let mut i: usize = 0;
    while i < n
        invariant
            i <= n,
            zip_entry_count(bytes@) == Ok::<usize, Seq<char>>(n),
            spec_find_zip_index(bytes@, file_name@) == zip_search(bytes@, file_name@, i as int, n as int),
        decreases n - i,
    {
        let name = read_zip_entry_name(bytes, i)?;
        if zip_entry_matches(name.as_str(), file_name) {
            return Ok(i);
        }
        i = i + 1;
    }
    let mut m = chars_of(file_name);
    crate::text::extend_vec(&mut m, &chars_of(" not found in release archive"));
    Err(string_of(&m))
}

/// The unpacked content of a file in a release archive.
pub fn extract_file_from_zip(bytes: &[u8], file_name: &str) -> (r: Result<Vec<u8>, String>)
    ensures
        match spec_find_zip_index(bytes@, file_name@) {
            Err(e) => r matches Err(m) && m@ == e,
            Ok(i) => match zip_entry_content(bytes@, i) {
                Ok(c) => r matches Ok(v) && v@ == c,
                Err(e) => r matches Err(m) && m@ == e,
            },
        },
{
    let index = find_zip_index(bytes, file_name)?;
    read_zip_entry_content(bytes, index)
}

} // verus!
