//! Batch document conversion: discovery of documents under a directory tree,
//! repair of unsafe names, output-path mirroring, dispatch planning and
//! aggregation of per-file outcomes.
pub mod aggregate;
pub mod discover;
pub mod dispatch;
pub mod error;
pub mod fs_path;
pub mod lazy_logger;
pub mod output;
pub mod pandoc;
pub mod prelude;
pub mod provision;
pub mod sanitize;

pub use sanitize::fix_mangled_name;
