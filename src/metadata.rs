use vstd::prelude::*;

verus! {

/// What the library reads of a local file system entry, taken from the
/// platform's metadata by the caller.
#[derive(Clone, Copy, Debug, PartialEq, Eq)]
pub struct FileMetadata {
    pub is_dir: bool,
    pub size: u64,
    /// Modification time, in microseconds since the Unix epoch.
    pub modified_at: i64,
    /// The raw permission mode where the platform has one.
    pub mode: Option<u32>,
}

/// The unix permission mode of an entry, or `None` on platforms without one.
pub fn unix_mode(metadata: &FileMetadata) -> (r: Option<u32>)
    ensures
        r == metadata.mode,
{
    metadata.mode
}

} // verus!
