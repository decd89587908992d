//! Core of an incremental directory-synchronization engine: the path model,
//! the include/exclude filter engine, the scan/reconcile/apply pipeline that
//! makes a destination tree mirror a source tree with minimum transfer, the
//! chunked file-transfer accounting, and the configuration model that decides
//! what a sync run does.

pub mod behaviour;
pub mod config;
pub mod doer;
pub mod entry;
pub mod filter;
pub mod laws;
pub mod path;
pub mod progress;
pub mod prompt;
pub mod reconcile;
pub mod remote_path;
pub mod spec_file;
pub mod sync;
pub mod tree;
