//! View state for the entries of an agent thread.

pub mod bundle;
pub mod bundle_laws;
pub mod entry;
pub mod key_set;
pub mod recompute;
pub mod recompute_laws;
pub mod reindex;
pub mod settings;
pub mod splice;
pub mod state;
pub mod state_calls;
pub mod state_laws;
pub mod sync;
pub mod sync_calls;
pub mod sync_laws;
pub mod tallies;
pub mod text;
pub mod thread;
pub mod tool_kind;
