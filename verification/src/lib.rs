//! Incremental deployment synchronisation: content-addressed change
//! detection, bounded parallel transfer planning, resumable transfer
//! bookkeeping and versioned snapshots, with machine-checked contracts.

pub mod clock;
pub mod delta_sync;
pub mod digest;
pub mod ident;
pub mod parallel_sync;
pub mod paths;
pub mod remote_diff;
pub mod scheduler;
pub mod scrape_cache;
pub mod strmap;
pub mod text;
pub mod transfer_resume;
pub mod version_history;
