//! Redirects hash-identified asset requests of a host process to substitute
//! files kept under a fixed root directory.
//!
//! The library holds the decisions: locating the call site by a byte
//! signature, deriving logical asset paths, building the hash-keyed index,
//! choosing from pools of alternates, and serving a request into the
//! caller's bounded output buffers. Directory reads, file metadata, the
//! asset hash and the hook itself are supplied by the embedding program.

pub mod scanner;
pub mod paths;
pub mod index;
pub mod pool;
pub mod intercept;

pub use scanner::find_subsequence;
pub use paths::{STREAM_DIR, join_path, logical_path, rewrite_extension, is_hidden_name, has_dot};
pub use index::{AssetEntry, Visit, classify_entry, StreamFiles};
pub use pool::{ListedEntry, PoolError, pool_candidates, select_media, random_media_select};
pub use intercept::{
    DEFAULT_LOOKUP_OFFSET, search_code, Interceptor, Step, lookup_by_stream_hash, resolve_pool,
    ServeError, write_outputs,
};
