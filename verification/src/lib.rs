//! Verified core of the Vantus web platform: request parsing, path
//! normalization, routing decisions, configuration binding, CLI planning,
//! log sanitization and metrics rendering.

pub mod text;
pub mod errors;
pub mod http;
pub mod path;
pub mod net;
pub mod request;
pub mod config;
pub mod routing;
pub mod extraction;
pub mod logging;
pub mod cli;
pub mod runtime;
pub mod observability;
pub mod id;
pub mod di;
pub mod middleware;
pub mod host;
