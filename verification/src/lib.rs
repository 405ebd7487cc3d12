//! A memory-bounded substring search engine.
//!
//! The crate provides the verified core of a concurrent file search tool:
//! a streaming substring matcher, an extension-whitelist filter for the
//! directory walker, a bounded job queue, a worker state machine and a
//! manager that aggregates per-file match counts.  All file and thread
//! handling lives outside this crate; the functions here work on plain
//! values and carry contracts for everything they compute.

pub mod filter;
pub mod manager;
pub mod matcher;
pub mod output;
pub mod queue;
pub mod version;
pub mod worker;

pub use filter::{base_name, extension_of, should_scan};
pub use manager::{run, scan, Manager};
pub use matcher::{process, Matcher};
pub use output::format_match_line;
pub use queue::{FileEntry, Job, JobQueue};
pub use version::build_version_str;
pub use worker::{Worker, WorkerPhase};

use vstd::prelude::*;

verus! {

/// The validated configuration the search engine runs with.
///
/// `dir` names the root of the tree to search, `needle` the term to look
/// for.  `whitelist` optionally restricts the scan to files whose
/// extension (compared case-insensitively) is listed; an empty whitelist
/// disables filtering.  `buf_size` is the size of the read buffer a worker
/// streams each file through, and `pool_size` the number of workers.
#[derive(Debug)]
pub struct Params {
    /// The directory to be searched in.
    pub dir: String,
    /// The text to search for.
    pub needle: String,
    /// Print a text snippet showing the result.
    pub snippets: bool,
    /// Extension whitelist; empty means every file is searched.
    pub whitelist: Vec<String>,
    /// Use case-insensitive search.
    pub case_insensitive: bool,
    /// Measure the execution time.
    pub benchmark: bool,
    /// Bound on the depth of the directory recursion.
    pub max_depth: Option<usize>,
    /// The size of the buffer used for reading a file.
    pub buf_size: usize,
    /// The number of worker threads.
    pub pool_size: usize,
}

/// A configuration error, raised before any scanning starts.
#[derive(Clone, Copy, Debug, PartialEq, Eq, Structural)]
pub enum Error {
    /// The search term is empty or the pool size is zero.
    InvalidConfiguration,
}

} // verus!
