//! Storage-path decisions: validating a chosen directory, composing the
//! notebook directory path, and the overwrite rule for saving files.
//!
//! The file system itself is a collaborator: callers probe it and pass the
//! outcome in as plain truths, and perform the returned actions.

use vstd::prelude::*;

verus! {

/// Whether saving may replace an existing file.
#[derive(Clone, Copy, Debug, PartialEq, Eq, Structural)]
pub enum SaveMode {
    Overwrite,
    NoOverwrite,
}

/// Whether a save under `mode` writes, given whether the file already
/// exists: overwriting always writes, the careful mode only fills a gap.
pub fn should_write(mode: &SaveMode, exists: bool) -> (r: bool)
    ensures
        r == (mode is Overwrite || !exists),
{
    match mode {
        SaveMode::Overwrite => true,
        SaveMode::NoOverwrite => !exists,
    }
}

/// Validate a storage path: it must exist and be a directory. The two
/// truths come from probing the file system for `path`.
pub fn validate_path(path: &str, exists: bool, is_dir: bool) -> (r: Result<(), String>)
    ensures
        r.is_ok() <==> (exists && is_dir),
        !exists ==> (r matches Err(m) && m@ == "Path does not exist: "@ + path@),
        exists && !is_dir ==> (r matches Err(m) && m@ == "Path is not a directory: "@ + path@),
{
    if !exists {
        let mut m = String::from_str("Path does not exist: ");
        m.append(path);
        return Err(m);
    }
    if !is_dir {
        let mut m = String::from_str("Path is not a directory: ");
        m.append(path);
        return Err(m);
    }
    Ok(())
}

/// The notebook directory under a chosen base path, with a forward slash
/// as separator; hosts on other separators convert before touching the
/// file system.
pub fn create_codex_directory(selected_path: &str, exists: bool, is_dir: bool) -> (r: Result<
    String,
    String,
>)
    ensures
        r.is_ok() <==> (exists && is_dir),
        r matches Ok(p) ==> p@ == selected_path@ + "/codex"@,
        !exists ==> (r matches Err(m) && m@ == "Path does not exist: "@ + selected_path@),
        exists && !is_dir ==> (r matches Err(m) && m@ == "Path is not a directory: "@
            + selected_path@),
{
    match validate_path(selected_path, exists, is_dir) {
        Err(m) => Err(m),
        Ok(()) => {
            let mut p = String::from_str(selected_path);
            p.append("/codex");
            Ok(p)
        },
    }
}

/// Accept a directory path that exists, or explain that it does not.
pub fn get_directory_path(path: &str, exists: bool) -> (r: Result<String, String>)
    ensures
        r.is_ok() <==> exists,
        r matches Ok(p) ==> p@ == path@,
        !exists ==> (r matches Err(m) && m@ == "Directory does not exist: "@ + path@),
{
    if exists {
        Ok(String::from_str(path))
    } else {
        let mut m = String::from_str("Directory does not exist: ");
        m.append(path);
        Err(m)
    }
}

} // verus!
