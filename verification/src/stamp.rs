//! The timestamp controller: every file the wrapper places in an output
//! directory is stamped with the unit's invoked-timestamp, a value read
//! off the driver's sentinel file rather than the system clock, so that
//! the driver's mtime-monotonicity assumption holds for substituted
//! artifacts.

use vstd::prelude::*;

verus! {

/// A file-modification time, as the filetime crate holds it. Opaque here:
/// it is read off a sentinel by the caller and propagated unchanged.
#[verifier::external_type_specification]
#[verifier::external_body]
pub struct ExFileTime(filetime::FileTime);

/// Relies on `filetime::set_file_mtime`: sets the file's modification
/// time to the given value; whether it succeeded.
#[verifier::external_body]
fn set_mtime(path: &str, mtime: &filetime::FileTime) -> bool {
    filetime::set_file_mtime(path, *mtime).is_ok()
}

/// Relies on `walkdir::WalkDir`: every entry under `root`, itself
/// included, as path strings; nothing on a walk error or a non-UTF-8
/// path. The result depends on what is on disk, so nothing is promised
/// of it.
#[verifier::external_body]
fn walk_dir_files(root: &str) -> Option<Vec<String>> {
    let mut out: Vec<String> = Vec::new();
    for entry in walkdir::WalkDir::new(root) {
        let entry = entry.ok()?;
        out.push(entry.path().to_str()?.to_owned());
    }
    Some(out)
}

/// Stamps every path in the list with the given time; whether every
/// stamp took.
pub fn stamp_paths(paths: &Vec<String>, mtime: &filetime::FileTime) -> (ok: bool) {
    let mut ok = true;
    let n = paths.len();
    let mut i: usize = 0;
    while i < n
        invariant
            n == paths@.len(),
            i <= n,
        decreases n - i,
    {
        if !set_mtime(paths[i].as_str(), mtime) {
            ok = false;
        }
        i = i + 1;
    }
    ok
}

/// Stamps the named files inside `dir` with the given time; whether every
/// stamp took.
pub fn stamp_files_in_dir(dir: &str, file_names: &Vec<String>, mtime: &filetime::FileTime) -> (ok:
    bool) {
    let mut ok = true;
    let n = file_names.len();
    let mut i: usize = 0;
    while i < n
        invariant
            n == file_names@.len(),
            i <= n,
        decreases n - i,
    {
        let p = crate::paths::path_join(dir, file_names[i].as_str());
        if !set_mtime(p.as_str(), mtime) {
            ok = false;
        }
        i = i + 1;
    }
    ok
}

/// Rewinds the modification time of everything under `root` to the given
/// time, as the deferred build script's output directory needs after the
/// real script has run; whether the walk and every stamp took.
pub fn restamp_dir(root: &str, mtime: &filetime::FileTime) -> (ok: bool) {
    match walk_dir_files(root) {
        Some(paths) => stamp_paths(&paths, mtime),
        None => false,
    }
}

} // verus!
