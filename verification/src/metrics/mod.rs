//! System metrics: the records of a snapshot and the reading of the kernel's text
//! interfaces that fill them.
pub mod cpu;
pub mod data;
pub mod gpio;
pub mod memory;
pub mod network;
pub mod storage;
pub mod system;
pub mod thermal;
