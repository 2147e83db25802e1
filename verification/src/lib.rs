//! Verified core of a command-line client for the Vikunja task manager:
//! request planning, filter expansion, project trees and the text shown to users.

pub mod text;
pub mod types;
pub mod hierarchy;
pub mod filter;
pub mod json;
pub mod util;
pub mod commands;
pub mod config;
pub mod laws;
pub mod output;
