//! Process configuration.
//!
//! The configuration is fixed at startup: where to listen, which queue
//! names are allowed (the allow-list), where the durable backend keeps its
//! data, and how logging is set up. Reading a configuration file is the
//! caller's concern; the library receives the settled values.

use vstd::prelude::*;

verus! {

/// The settled startup configuration.
pub struct AppConfig {
    pub bind_address: String,
    pub port: u16,
    pub queues: Vec<String>,
    pub log_file: String,
    pub log_level: String,
    pub database_path: String,
    pub max_workers: Option<usize>,
}

} // verus!
