//! A deployment client library: enumerates a local source tree under ignore
//! rules, decides which files changed against the remote copy, plans the
//! transfer, and detects completion of remote commands from their output.

pub mod text;
pub mod path;
pub mod ignore_rules;
pub mod fs;
pub mod integrity;
pub mod exec;
pub mod config;
pub mod task;
pub mod transfer;
pub mod session;
pub mod deploy;
