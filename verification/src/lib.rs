//! Cyberbrain Light as a verified library: the rules of the store, the hooks, the
//! settings merge and the MCP server, over plain values.

pub mod text;
pub mod cli;
pub mod config;
pub mod clock;
pub mod json;
pub mod hook;
pub mod install;
pub mod settings;
pub mod note;
pub mod mcp;
pub mod path;
pub mod recall;
pub mod scan;
pub mod report;
