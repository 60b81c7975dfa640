//! The records that make up a system snapshot.
pub use super::memory::{MemoryBreakdown, SwapInfo};
pub use super::network::NetworkInfo;
pub use super::storage::DiskSpace;
pub use super::system::SystemInfo;
