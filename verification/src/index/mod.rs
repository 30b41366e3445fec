pub mod indexer;
pub mod state;

pub use indexer::{discover_and_sort_files, prune_stale_sessions, IndexProgress, IndexRun, IndexStep};
pub use state::{IndexState, SessionState};
