//! Shell Sage: turning a locally generated model reply into a shell command,
//! and the configuration rules around it.

pub mod config;
pub mod downloader;
pub mod engine;
pub mod output;
pub mod prompt;
pub mod reply;
pub mod setup;
pub mod text;
