//! Selecting what to download from a purchased bundle, and the decisions of
//! a download that can be cut off and taken up again.

pub mod commands;
pub mod config;
pub mod decimal;
pub mod download;
pub mod humble_api;
pub mod key_match;
pub mod listing;
pub mod models;
pub mod orchestrator;
pub mod prelude;
pub mod selection;
pub mod text;
pub mod util;
