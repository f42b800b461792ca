//! Sitevik: the verified core of a minimal static-site server.
//!
//! The library holds what the server decides: which request paths are safe
//! to resolve, how the startup configuration is validated, and what the
//! fallback handler answers once normal static-file resolution has failed.
pub mod config;
pub mod decoded_text;
pub mod fallback;
pub mod request_path;

pub use config::{Config, ConfigError, SocketAddress};
pub use request_path::{hex_value, safe_request_path};
