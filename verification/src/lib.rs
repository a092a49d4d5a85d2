//! Two-way synchronisation of key/value stores whose keys are hierarchical
//! paths.
//!
//! A store is anything that implements [`Db`]; [`memory_db::MemoryDb`] is one
//! that lives in memory. [`SyncDb`] holds a local and a remote store and
//! reconciles them, one path or one folder at a time. What each operation
//! does is stated over the stores' views, maps from [`FilePathView`] to
//! items, and [`laws`] proves what follows for every pass.

pub mod db;
pub mod laws;
pub mod memory_db;
pub mod order;
pub mod path;
pub mod sync_db;

pub use db::{is_listing, listed_paths, stored_at, written, Db, Depth};
pub use order::Order;
pub use path::{FilePath, FilePathCreationError, FilePathView, FolderPath};
pub use sync_db::{resolve, union_paths, Resolution, SyncDb};
