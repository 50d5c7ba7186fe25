//! Verified core of `mbit`, a build and run tool for MoonBit WebAssembly
//! components and MCP servers.
pub mod cli;
pub mod config;
pub mod handles;
pub mod host;
pub mod http;
pub mod project;
pub mod stdlib;
pub mod text;
