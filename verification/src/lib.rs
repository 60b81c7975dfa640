//! System monitoring library for a Raspberry Pi dashboard: the parsing of the
//! kernel's text interfaces, the records of collected metrics, the GPIO status
//! model, the web server configuration and the registry of live dashboard
//! clients.
use vstd::prelude::*;

pub mod error;
pub mod metrics;
pub mod number;
pub mod text;
pub mod web;

pub use error::{Result, SystemError};
pub use metrics::data::{MemoryBreakdown, NetworkInfo, SwapInfo, SystemInfo};
pub use metrics::gpio::{GpioProvider, GpioStatus};
pub use web::WebConfig;

verus! {

/// The default monitoring interval in milliseconds.
pub const DEFAULT_INTERVAL_MS: u64 = 500;

/// The default web server port.
pub const DEFAULT_WEB_PORT: u16 = 8080;

} // verus!
