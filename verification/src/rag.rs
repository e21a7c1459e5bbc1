//! Records of retrieval-augmented generation: retrieved chunks and indexing status.
use vstd::prelude::*;

verus! {

/// A chunk returned by retrieval, with the repository it came from. The
/// fusion score that ranks it is kept by the application, not here.
pub struct RetrievedChunk {
    pub file_path: String,
    pub repo_name: String,
    pub start_line: usize,
    pub end_line: usize,
    pub content: String,
}

/// Progress of indexing one repository.
pub struct IndexProgress {
    pub repo_id: String,
    pub repo_name: String,
    pub files_done: usize,
    pub files_total: usize,
}

/// Whether a repository has been indexed, and how many chunks it holds.
pub struct IndexStatus {
    pub indexed: bool,
    pub chunk_count: usize,
}

impl IndexStatus {
    /// The status of a repository holding `chunk_count` chunks: indexed when it
    /// holds at least one.
    pub fn from_count(chunk_count: usize) -> (s: IndexStatus)
        ensures
            s.chunk_count == chunk_count,
            s.indexed == (chunk_count > 0),
    {
        IndexStatus { indexed: chunk_count > 0, chunk_count }
    }
}

} // verus!
