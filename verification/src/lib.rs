//! Verified core of ssmux, a terminal manager for AWS Systems Manager sessions.
pub mod text;
pub mod keyed;
pub mod params;
pub mod config;
pub mod ssm;
pub mod ipc;
pub mod daemon;
pub mod session;
pub mod cli;
pub mod tui;
