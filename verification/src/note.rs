//! The earlier note-flavoured data model and its storage check, kept for
//! the commands that still speak it.

use vstd::prelude::*;

verus! {

/// A note-flavoured document: statuses travel as text here.
pub struct Document {
    pub id: String,
    pub title: String,
    pub status: String,
    pub tags: Option<Vec<String>>,
    pub created_at: String,
    pub updated_at: String,
    pub blocks: Option<Vec<Block>>,
}

/// A note-flavoured block; the order key is an unsigned integer that
/// callers derive monotonically from their fractional positions.
pub struct Block {
    pub id: String,
    pub document_id: String,
    pub block_type: Option<String>,
    pub content: Option<String>,
    pub order_index: u64,
    pub source_document_id: Option<String>,
    pub indexing_status: String,
    pub created_at: String,
    pub updated_at: String,
}

/// What can go wrong while preparing note storage.
pub enum NoteError {
    PathDoesNotExistError(String),
    PathIsNotDirectoryError(String),
    PathCreationError(String),
}

impl NoteError {
    /// A short description of the failure.
    pub fn describe(&self) -> (r: String)
        ensures
            self matches NoteError::PathDoesNotExistError(_) ==> r@ == "Path does not exist"@,
            self matches NoteError::PathIsNotDirectoryError(_) ==> r@
                == "Path is not a directory"@,
            self matches NoteError::PathCreationError(_) ==> r@
                == "Failed to create directory at path"@,
    {
        match self {
            NoteError::PathDoesNotExistError(_) => String::from_str("Path does not exist"),
            NoteError::PathIsNotDirectoryError(_) => String::from_str("Path is not a directory"),
            NoteError::PathCreationError(_) => String::from_str(
                "Failed to create directory at path",
            ),
        }
    }
}

/// Check that the chosen base path can hold note storage: it must exist
/// and be a directory. The two truths come from probing the file system;
/// the caller creates the directory afterwards.
pub fn ensure_storage(path: &str, exists: bool, is_dir: bool) -> (r: Result<(), NoteError>)
    ensures
        r.is_ok() <==> (exists && is_dir),
        !exists ==> (r matches Err(NoteError::PathDoesNotExistError(m)) && m@
            == "Path does not exist: "@ + path@),
        exists && !is_dir ==> (r matches Err(NoteError::PathIsNotDirectoryError(m)) && m@
            == "Path is not a directory: "@ + path@),
{
    if !exists {
        let mut m = String::from_str("Path does not exist: ");
        m.append(path);
        return Err(NoteError::PathDoesNotExistError(m));
    }
    if !is_dir {
        let mut m = String::from_str("Path is not a directory: ");
        m.append(path);
        return Err(NoteError::PathIsNotDirectoryError(m));
    }
    Ok(())
}

} // verus!
