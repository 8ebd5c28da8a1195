//! A client library for YOURLS URL shorteners: argument handling, server
//! selection, request building and reply checking, configuration completion,
//! history merging, release-version comparison and the decisions of the
//! clipboard tray, each stated as a contract and proved.

pub mod text;
pub mod external;
pub mod config;
pub mod common;
pub mod shorten;
pub mod requests;
pub mod cli;
pub mod history;
pub mod version;
pub mod messages;
pub mod session;
