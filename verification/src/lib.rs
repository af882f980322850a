//! Local-first bookmark synchronisation: URL cleaning, event logs, segment
//! bookkeeping, browser bookmark trees and the SQL the stores run.

pub mod text;
pub mod models;
pub mod segment;
pub mod segment_files;
pub mod search;
pub mod scanner;
pub mod json;
pub mod plist;
pub mod url_ops;
pub mod config;
pub mod devices;
pub mod store_sql;
pub mod native;
pub mod import;
pub mod commands;
pub mod settings;
pub mod sync_flow;
pub mod metadata;
pub mod store;
