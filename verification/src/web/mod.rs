//! The web side: server configuration and the registry of connected dashboard clients.
pub mod clients;
pub mod config;
pub mod health;

pub use config::WebConfig;
